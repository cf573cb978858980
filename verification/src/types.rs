//! The values that an election takes and gives.

use vstd::prelude::*;

verus! {

/// How ballots with no candidate left are treated when the majority threshold
/// is worked out.
#[derive(Debug, Clone, Copy, PartialEq, Eq)]
pub enum MajorityMode {
    /// Every ballot counts as a voter, whether or not it still names a
    /// candidate in the running.
    CompleteMajority,
    /// Only ballots that cast a vote in the round count as voters.
    RemainingMajority,
}

/// Why an election has no outcome.
#[derive(Debug, Clone, Copy, PartialEq, Eq)]
pub enum ElectionError {
    /// There are no ballots at all.
    EmptyVoteCollection,
    /// There are ballots, but none of them cast a vote in the round.
    VotersNoVotes,
    /// A counter would have left the range of `u32`.
    Overflow,
}

impl ElectionError {
    /// The line that stands for any election error when it is printed.
    pub fn summary(&self) -> (text: &'static str)
        ensures
            text@ == "Error with election input"@,
    {
        "Error with election input"
    }

    /// A short sentence for the error.
    pub fn description(&self) -> (text: &'static str)
        ensures
            text@ == self.spec_description(),
    {
        match self {
            ElectionError::EmptyVoteCollection => "Vote Collection is empty",
            ElectionError::VotersNoVotes => "There were voters, but no votes",
            ElectionError::Overflow => "An integer overflow occured",
        }
    }

    /// The sentence that `description` returns.
    pub open spec fn spec_description(&self) -> Seq<char> {
        match self {
            ElectionError::EmptyVoteCollection => "Vote Collection is empty"@,
            ElectionError::VotersNoVotes => "There were voters, but no votes"@,
            ElectionError::Overflow => "An integer overflow occured"@,
        }
    }
}

/// The outcome of an election as a mathematical value.
pub enum Outcome<T> {
    /// One candidate reached the majority threshold.
    Winner(T),
    /// Two or more candidates reached it in the same round, listed in the
    /// order in which the round first saw them.
    Tie(Seq<T>),
}

/// The outcome of an election: candidates are handed back as references into
/// the ballots.
#[derive(Debug, PartialEq)]
pub enum ElectionResult<'a, T: 'a> {
    /// One candidate reached the majority threshold.
    Winner(&'a T),
    /// Two or more candidates reached it in the same round.
    Tie(Vec<&'a T>),
}

/// The candidates that a sequence of references points to.
pub open spec fn targets<T>(refs: Seq<&T>) -> Seq<T> {
    Seq::new(refs.len(), |i: int| *refs[i])
}

impl<'a, T> ElectionResult<'a, T> {
    /// The outcome that this result stands for.
    pub open spec fn outcome(&self) -> Outcome<T> {
        match self {
            ElectionResult::Winner(c) => Outcome::Winner(**c),
            ElectionResult::Tie(cs) => Outcome::Tie(targets(cs@)),
        }
    }
}

} // verus!
