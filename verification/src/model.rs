//! The mathematical model of an election: what a round counts, what it
//! decides, and how rounds follow one another.

use vstd::prelude::*;
use crate::types::{ElectionError, MajorityMode, Outcome};

verus! {

/// The largest value a vote or voter counter can hold.
pub open spec fn counter_max() -> int {
    0xffff_ffff
}

/// The first candidate of `ballot`, at or after position `start`, that is not
/// eliminated.
pub open spec fn top_choice_from<T>(ballot: Seq<T>, eliminated: Set<T>, start: int) -> Option<T>
    decreases ballot.len() - start,
{
    if start < 0 || start >= ballot.len() {
        None
    } else if !eliminated.contains(ballot[start]) {
        Some(ballot[start])
    } else {
        top_choice_from(ballot, eliminated, start + 1)
    }
}

/// The candidate that `ballot` votes for in a round, if it has one left.
pub open spec fn top_choice<T>(ballot: Seq<T>, eliminated: Set<T>) -> Option<T> {
    top_choice_from(ballot, eliminated, 0)
}

/// The votes that the first `n` ballots cast in a round, in ballot order.
/// An exhausted ballot casts none.
pub open spec fn cast_votes<T>(ballots: Seq<Seq<T>>, eliminated: Set<T>, n: int) -> Seq<T>
    decreases n,
{
    if n <= 0 {
        Seq::empty()
    } else {
        let earlier = cast_votes(ballots, eliminated, n - 1);
        match top_choice(ballots[n - 1], eliminated) {
            Some(c) => earlier.push(c),
            None => earlier,
        }
    }
}

/// All votes of a round.
pub open spec fn round_votes<T>(ballots: Seq<Seq<T>>, eliminated: Set<T>) -> Seq<T> {
    cast_votes(ballots, eliminated, ballots.len() as int)
}

/// How often `c` occurs in `votes`.
pub open spec fn occurrences<T>(votes: Seq<T>, c: T) -> nat
    decreases votes.len(),
{
    if votes.len() == 0 {
        0
    } else {
        occurrences(votes.drop_last(), c) + if votes.last() == c { 1nat } else { 0nat }
    }
}

/// The candidates of `votes`, each once, in the order of their first vote.
pub open spec fn first_seen<T>(votes: Seq<T>) -> Seq<T>
    decreases votes.len(),
{
    if votes.len() == 0 {
        Seq::empty()
    } else {
        let earlier = first_seen(votes.drop_last());
        if earlier.contains(votes.last()) {
            earlier
        } else {
            earlier.push(votes.last())
        }
    }
}

/// The number of voters that the majority is taken of, among the first `n`
/// ballots.
pub open spec fn voters_among<T>(
    ballots: Seq<Seq<T>>,
    eliminated: Set<T>,
    mode: MajorityMode,
    n: int,
) -> int {
    match mode {
        MajorityMode::CompleteMajority => if n <= 0 { 0 } else { n },
        MajorityMode::RemainingMajority => cast_votes(ballots, eliminated, n).len() as int,
    }
}

/// The number of voters that the majority is taken of in a round.
pub open spec fn voter_count<T>(ballots: Seq<Seq<T>>, eliminated: Set<T>, mode: MajorityMode) -> int {
    voters_among(ballots, eliminated, mode, ballots.len() as int)
}

/// The count a candidate needs to win a round with `voters` voters.
pub open spec fn majority_threshold(voters: int) -> int {
    (voters + 1) / 2
}

/// Whether a candidate's count in `votes` reaches `threshold`.
pub open spec fn reaches<T>(votes: Seq<T>, threshold: int) -> spec_fn(T) -> bool {
    |c: T| occurrences(votes, c) >= threshold
}

/// Whether no candidate of `votes` has fewer votes than `c`.
pub open spec fn is_lowest<T>(votes: Seq<T>, c: T) -> bool {
    forall|d: T| votes.contains(d) ==> occurrences(votes, c) <= #[trigger] occurrences(votes, d)
}

/// `is_lowest` as a predicate on candidates.
pub open spec fn lowest<T>(votes: Seq<T>) -> spec_fn(T) -> bool {
    |c: T| is_lowest(votes, c)
}

/// The candidates of a round that reach `threshold`, in first-seen order.
pub open spec fn leaders<T>(votes: Seq<T>, threshold: int) -> Seq<T> {
    first_seen(votes).filter(reaches(votes, threshold))
}

/// The candidates of a round on the lowest count, in first-seen order.
pub open spec fn trailers<T>(votes: Seq<T>) -> Seq<T> {
    first_seen(votes).filter(lowest(votes))
}

/// What one round comes to.
pub enum RoundOutcome<T> {
    /// The election ends here, with this outcome or error.
    Decided(Result<Outcome<T>, ElectionError>),
    /// Nobody reached the threshold: these candidates leave the running.
    Eliminate(Seq<T>),
}

/// What the round comes to in which `eliminated` are out of the running.
pub open spec fn round_outcome<T>(
    ballots: Seq<Seq<T>>,
    eliminated: Set<T>,
    mode: MajorityMode,
) -> RoundOutcome<T> {
    let votes = round_votes(ballots, eliminated);
    let voters = voter_count(ballots, eliminated, mode);
    if voters > counter_max() {
        RoundOutcome::Decided(Err(ElectionError::Overflow))
    } else if ballots.len() == 0 {
        RoundOutcome::Decided(Err(ElectionError::EmptyVoteCollection))
    } else if votes.len() == 0 {
        RoundOutcome::Decided(Err(ElectionError::VotersNoVotes))
    } else if voters + 1 > counter_max() {
        RoundOutcome::Decided(Err(ElectionError::Overflow))
    } else {
        let ahead = leaders(votes, majority_threshold(voters));
        if ahead.len() == 0 {
            RoundOutcome::Eliminate(trailers(votes))
        } else if ahead.len() == 1 {
            RoundOutcome::Decided(Ok(Outcome::Winner(ahead[0])))
        } else {
            RoundOutcome::Decided(Ok(Outcome::Tie(ahead)))
        }
    }
}

/// The candidates that are out of the running when round `round` begins
/// (the first round is round 0).
pub open spec fn eliminated_before<T>(ballots: Seq<Seq<T>>, mode: MajorityMode, round: nat) -> Set<T>
    decreases round,
{
    if round == 0 {
        Set::empty()
    } else {
        let earlier = eliminated_before(ballots, mode, (round - 1) as nat);
        match round_outcome(ballots, earlier, mode) {
            RoundOutcome::Eliminate(out) => earlier.union(out.to_set()),
            RoundOutcome::Decided(_) => earlier,
        }
    }
}

/// What round `round` comes to.
pub open spec fn outcome_of_round<T>(ballots: Seq<Seq<T>>, mode: MajorityMode, round: nat) -> RoundOutcome<T> {
    round_outcome(ballots, eliminated_before(ballots, mode, round), mode)
}

/// The outcome of the first round, from `round` on and before `limit`, that
/// decides the election; `None` if all of them eliminate.
pub open spec fn decided_from<T>(
    ballots: Seq<Seq<T>>,
    mode: MajorityMode,
    round: nat,
    limit: nat,
) -> Option<Result<Outcome<T>, ElectionError>>
    decreases limit - round,
{
    if round >= limit {
        None
    } else {
        match outcome_of_round(ballots, mode, round) {
            RoundOutcome::Decided(r) => Some(r),
            RoundOutcome::Eliminate(_) => decided_from(ballots, mode, round + 1, limit),
        }
    }
}

/// What the election comes to if it is decided within `limit` rounds.
pub open spec fn decided_within<T>(
    ballots: Seq<Seq<T>>,
    mode: MajorityMode,
    limit: nat,
) -> Option<Result<Outcome<T>, ElectionError>> {
    decided_from(ballots, mode, 0, limit)
}

/// Every entry of every one of the first `n` ballots, in order.
pub open spec fn entries<T>(ballots: Seq<Seq<T>>, n: int) -> Seq<T>
    decreases n,
{
    if n <= 0 {
        Seq::empty()
    } else {
        entries(ballots, n - 1) + ballots[n - 1]
    }
}

/// The candidates that the ballots name.
pub open spec fn candidates<T>(ballots: Seq<Seq<T>>) -> Set<T> {
    entries(ballots, ballots.len() as int).to_set()
}

/// The outcome of the election: that of its first deciding round. With `n`
/// candidates on the ballots there is one among the first `n + 1` rounds.
pub open spec fn election_outcome<T>(
    ballots: Seq<Seq<T>>,
    mode: MajorityMode,
) -> Option<Result<Outcome<T>, ElectionError>> {
    decided_within(ballots, mode, candidates(ballots).len() + 1)
}

/// The ballots as sequences.
pub open spec fn ballots_view<T>(voters: Seq<Vec<T>>) -> Seq<Seq<T>> {
    Seq::new(voters.len(), |i: int| voters[i]@)
}

} // verus!
