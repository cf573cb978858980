//! Counting one round: which candidate each ballot votes for, and how many
//! votes each candidate has.

use vstd::prelude::*;
use vstd::laws_eq::obeys_concrete_eq;
use crate::facts::{
    lemma_cast_votes_grow, lemma_first_seen, lemma_first_seen_push,
    lemma_occurrences_bound, lemma_occurrences_push, lemma_targets_push, lemma_unseen_has_no_vote,
};
use crate::model::{
    ballots_view, cast_votes, counter_max, first_seen, occurrences, round_votes, top_choice,
    top_choice_from, voter_count, voters_among,
};
use crate::types::{targets, ElectionError, MajorityMode};

verus! {

/// Where `c` stands in `names`, if it does.
pub fn position<'a, T: Eq>(names: &Vec<&'a T>, c: &T) -> (at: Option<usize>)
    requires
        obeys_concrete_eq::<T>(),
    ensures
        match at {
            Some(i) => i < names.len() && *names[i as int] == *c
                && forall|k: int| 0 <= k < i ==> *names[k] != *c,
            None => !targets(names@).contains(*c),
        },
{
    let mut i: usize = 0;
    while i < names.len()
        invariant
            i <= names.len(),
            obeys_concrete_eq::<T>(),
            forall|k: int| 0 <= k < i ==> *names[k] != *c,
        decreases names.len() - i,
    {
        proof {
            reveal(obeys_concrete_eq);
        }
        if *names[i] == *c {
            return Some(i);
        }
        i += 1;
    }
    assert forall|k: int| 0 <= k < targets(names@).len() implies targets(names@)[k] != *c by {
        assert(*names[k] != *c);
    }
    None
}

/// Whether `c` is out of the running.
pub fn is_eliminated<'a, T: Eq>(eliminated: &Vec<&'a T>, c: &T) -> (out: bool)
    requires
        obeys_concrete_eq::<T>(),
    ensures
        out == targets(eliminated@).to_set().contains(*c),
{
    match position(eliminated, c) {
        Some(i) => {
            assert(targets(eliminated@)[i as int] == *c);
            true
        },
        None => false,
    }
}

/// The candidate that `ballot` votes for while `eliminated` are out of the
/// running: its first candidate that is not among them.
pub fn first_choice<'a, T: Eq>(ballot: &'a Vec<T>, eliminated: &Vec<&'a T>) -> (choice: Option<&'a T>)
    requires
        obeys_concrete_eq::<T>(),
    ensures
        match choice {
            Some(c) => top_choice(ballot@, targets(eliminated@).to_set()) == Some(*c),
            None => top_choice(ballot@, targets(eliminated@).to_set()) == None::<T>,
        },
{
    let ghost out = targets(eliminated@).to_set();
    let mut j: usize = 0;
    while j < ballot.len()
        invariant
            j <= ballot.len(),
            obeys_concrete_eq::<T>(),
            out == targets(eliminated@).to_set(),
            top_choice(ballot@, out) == top_choice_from(ballot@, out, j as int),
        decreases ballot.len() - j,
    {
        if !is_eliminated(eliminated, &ballot[j]) {
            return Some(&ballot[j]);
        }
        j += 1;
    }
    None
}

/// The count of one round: the candidates that have a vote, in the order of
/// their first vote, with the number of votes of each, and the number of
/// voters that the majority is taken of.
pub struct RoundTally<'a, T> {
    /// The candidates with at least one vote.
    pub names: Vec<&'a T>,
    /// The votes of each candidate of `names`, at the same position.
    pub counts: Vec<u32>,
    /// The voters of the round.
    pub num_voters: u32,
    /// The votes that were counted, in ballot order.
    pub votes: Ghost<Seq<T>>,
}

impl<'a, T> RoundTally<'a, T> {
    /// The tally lists the candidates of its votes once each, in first-seen
    /// order, with their counts, and has at least as many voters as votes.
    pub open spec fn wf(&self) -> bool {
        &&& targets(self.names@) == first_seen(self.votes@)
        &&& self.counts@.len() == self.names@.len()
        &&& forall|k: int|
            0 <= k < self.names@.len() ==> self.counts@[k] == occurrences(
                self.votes@,
                *#[trigger] self.names@[k],
            )
        &&& self.votes@.len() <= self.num_voters
    }
}

/// Counts one round. Fails with `Overflow` exactly if the round has more
/// voters than a counter can hold.
pub fn count_round<'a, T: Eq>(
    voters: &'a Vec<Vec<T>>,
    eliminated: &Vec<&'a T>,
    mode: MajorityMode,
) -> (r: Result<RoundTally<'a, T>, ElectionError>)
    requires
        obeys_concrete_eq::<T>(),
    ensures
        match r {
            Ok(t) => {
                &&& t.wf()
                &&& t.votes@ == round_votes(ballots_view(voters@), targets(eliminated@).to_set())
                &&& t.num_voters == voter_count(
                    ballots_view(voters@),
                    targets(eliminated@).to_set(),
                    mode,
                )
            },
            Err(e) => {
                &&& e == ElectionError::Overflow
                &&& voter_count(ballots_view(voters@), targets(eliminated@).to_set(), mode)
                    > counter_max()
            },
        },
{
    let ghost b = ballots_view(voters@);
    let ghost out = targets(eliminated@).to_set();
    let mut names: Vec<&'a T> = Vec::new();
    let mut counts: Vec<u32> = Vec::new();
    let mut num_voters: u32 = 0;
    let mut i: usize = 0;
    assert(targets(names@) =~= first_seen(cast_votes(b, out, 0)));
    while i < voters.len()
        invariant
            i <= voters.len(),
            obeys_concrete_eq::<T>(),
            b == ballots_view(voters@),
            out == targets(eliminated@).to_set(),
            targets(names@) == first_seen(cast_votes(b, out, i as int)),
            counts@.len() == names@.len(),
            forall|k: int|
                0 <= k < names@.len() ==> counts@[k] == occurrences(
                    cast_votes(b, out, i as int),
                    *#[trigger] names@[k],
                ),
            num_voters == voters_among(b, out, mode, i as int),
            cast_votes(b, out, i as int).len() <= num_voters,
        decreases voters.len() - i,
    {
        let ghost before = cast_votes(b, out, i as int);
        let choice = first_choice(&voters[i], eliminated);
        let counted = match mode {
            MajorityMode::CompleteMajority => true,
            MajorityMode::RemainingMajority => choice.is_some(),
        };
        if counted {
            if num_voters == u32::MAX {
                proof {
                    lemma_cast_votes_grow(b, out, i + 1, voters.len() as int);
                }
                return Err(ElectionError::Overflow);
            }
            num_voters += 1;
        }
        if let Some(c) = choice {
            proof {
                lemma_first_seen(before);
                lemma_first_seen_push(before, *c);
                assert forall|d: T| occurrences(before.push(*c), d) == occurrences(before, d) + if *c
                    == d { 1nat } else { 0nat } by {
                    lemma_occurrences_push(before, *c, d);
                }
                lemma_occurrences_bound(before, *c);
            }
            let ghost seen = names@;
            match position(&names, c) {
                Some(k) => {
                    assert(targets(seen)[k as int] == *c);
                    assert forall|j: int| 0 <= j < seen.len() && j != k implies *seen[j] != *c by {
                        assert(targets(seen)[j] == *seen[j]);
                    }
                    let n: u32 = counts[k];
                    counts.set(k, n + 1);
                },
                None => {
                    proof {
                        lemma_targets_push(seen, c);
                        lemma_unseen_has_no_vote(before, *c);
                        assert forall|j: int| 0 <= j < seen.len() implies *seen[j] != *c by {
                            assert(targets(seen)[j] == *seen[j]);
                        }
                    }
                    names.push(c);
                    counts.push(1);
                },
            }
            assert(cast_votes(b, out, i + 1) == before.push(*c));
            assert forall|j: int| 0 <= j < names@.len() implies counts@[j] == occurrences(
                before.push(*c),
                *#[trigger] names@[j],
            ) by {
                if j < seen.len() {
                    assert(names@[j] == seen[j]);
                }
            }
        }
        i += 1;
    }
    Ok(RoundTally { names, counts, num_voters, votes: Ghost(cast_votes(b, out, i as int)) })
}

} // verus!
