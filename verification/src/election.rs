//! Running an election: rounds of counting and elimination until one of them
//! decides.

use vstd::prelude::*;
use vstd::laws_eq::obeys_concrete_eq;
use crate::facts::{lemma_elimination_shrinks, lemma_first_seen, lemma_inhabited_len};
use crate::laws::lemma_round_has_live_candidate;
use crate::model::{
    ballots_view, candidates, decided_from, decided_within, election_outcome, eliminated_before,
    outcome_of_round, round_outcome, round_votes, RoundOutcome,
};
use crate::round::threshold_for;
use crate::tally::count_round;
use crate::types::{targets, ElectionError, ElectionResult, MajorityMode, Outcome};

verus! {

/// What a result of `run_election` stands for.
pub open spec fn result_model<'a, T>(r: Result<ElectionResult<'a, T>, ElectionError>) -> Result<
    Outcome<T>,
    ElectionError,
> {
    match r {
        Ok(x) => Ok(x.outcome()),
        Err(e) => Err(e),
    }
}

/// Adds the candidates of `out` to `eliminated`.
pub fn eliminate<'a, T>(eliminated: &mut Vec<&'a T>, out: &Vec<&'a T>)
    ensures
        final(eliminated)@ == old(eliminated)@ + out@,
        targets(final(eliminated)@).to_set() == targets(old(eliminated)@).to_set().union(
            targets(out@).to_set(),
        ),
{
    let ghost start = eliminated@;
    let mut k: usize = 0;
    assert(eliminated@ =~= start + out@.take(0));
    while k < out.len()
        invariant
            k <= out.len(),
            eliminated@ == start + out@.take(k as int),
        decreases out.len() - k,
    {
        eliminated.push(out[k]);
        assert(eliminated@ =~= start + out@.take(k + 1));
        k += 1;
    }
    assert(out@.take(k as int) =~= out@);
    let ghost whole = targets(eliminated@);
    assert forall|c: T|
        whole.to_set().contains(c) <==> targets(start).to_set().union(
            targets(out@).to_set(),
        ).contains(c) by {
        if whole.contains(c) {
            let i = choose|i: int| 0 <= i < whole.len() && whole[i] == c;
            if i < start.len() {
                assert(targets(start)[i] == c);
            } else {
                assert(targets(out@)[i - start.len()] == c);
            }
        }
        if targets(start).contains(c) {
            let i = choose|i: int| 0 <= i < start.len() && targets(start)[i] == c;
            assert(whole[i] == c);
        }
        if targets(out@).contains(c) {
            let i = choose|i: int| 0 <= i < out@.len() && targets(out@)[i] == c;
            assert(whole[start.len() + i] == c);
        }
    }
    assert(whole.to_set() =~= targets(start).to_set().union(targets(out@).to_set()));
}

/// What one round of an election comes to.
#[derive(Debug, PartialEq)]
pub enum RoundStep<'a, T: 'a> {
    /// The election ends with this result.
    Decided(Result<ElectionResult<'a, T>, ElectionError>),
    /// Nobody reached the threshold: these candidates, all on the lowest
    /// count, leave the running.
    Eliminate(Vec<&'a T>),
}

impl<'a, T> RoundStep<'a, T> {
    /// The round outcome that this step stands for.
    pub open spec fn model(&self) -> RoundOutcome<T> {
        match self {
            RoundStep::Decided(r) => RoundOutcome::Decided(result_model(*r)),
            RoundStep::Eliminate(out) => RoundOutcome::Eliminate(targets(out@)),
        }
    }
}

/// Counts one round in which `eliminated` are out of the running, and says
/// what it comes to: an error, a winner, a tie, or the candidates to
/// eliminate.
pub fn run_round<'a, T: Eq>(
    voters: &'a Vec<Vec<T>>,
    eliminated: &Vec<&'a T>,
    majority_mode: MajorityMode,
) -> (step: RoundStep<'a, T>)
    requires
        obeys_concrete_eq::<T>(),
    ensures
        step.model() == round_outcome(
            ballots_view(voters@),
            targets(eliminated@).to_set(),
            majority_mode,
        ),
{
    let ghost votes = round_votes(ballots_view(voters@), targets(eliminated@).to_set());
    let tally = match count_round(voters, eliminated, majority_mode) {
        Ok(t) => t,
        Err(_) => {
            return RoundStep::Decided(Err(ElectionError::Overflow));
        },
    };
    proof {
        lemma_first_seen(votes);
    }
    if voters.len() == 0 {
        return RoundStep::Decided(Err(ElectionError::EmptyVoteCollection));
    }
    if tally.names.len() == 0 {
        return RoundStep::Decided(Err(ElectionError::VotersNoVotes));
    }
    let threshold = match threshold_for(tally.num_voters) {
        Ok(t) => t,
        Err(_) => {
            return RoundStep::Decided(Err(ElectionError::Overflow));
        },
    };
    let ahead = tally.leaders(threshold);
    if ahead.len() == 0 {
        RoundStep::Eliminate(tally.trailers())
    } else if ahead.len() == 1 {
        assert(targets(ahead@)[0] == *ahead@[0]);
        RoundStep::Decided(Ok(ElectionResult::Winner(ahead[0])))
    } else {
        RoundStep::Decided(Ok(ElectionResult::Tie(ahead)))
    }
}

/// Runs a ranked-choice election over `voters`, each a ballot that lists
/// candidates from the most to the least preferred.
///
/// The result is that of the first round that decides: a winner, a tie, or an
/// error. With `n` candidates on the ballots that round is among the first
/// `n + 1`; a winner or a tie is found among the first `n`.
pub fn run_election<'a, T: Eq>(voters: &'a Vec<Vec<T>>, majority_mode: MajorityMode) -> (r: Result<
    ElectionResult<'a, T>,
    ElectionError,
>)
    requires
        obeys_concrete_eq::<T>(),
    ensures
        election_outcome(ballots_view(voters@), majority_mode) == Some(result_model(r)),
        r is Ok ==> decided_within(
            ballots_view(voters@),
            majority_mode,
            candidates(ballots_view(voters@)).len(),
        ) == Some(result_model(r)),
{
    let ghost b = ballots_view(voters@);
    let ghost all = candidates(b);
    let ghost total = all.len();
    let ghost round: nat = 0;
    let mut eliminated: Vec<&'a T> = Vec::new();
    assert(targets(eliminated@).to_set() =~= Set::<T>::empty());
    assert(all.difference(Set::<T>::empty()) =~= all);
    loop
        invariant
            obeys_concrete_eq::<T>(),
            b == ballots_view(voters@),
            all == candidates(b),
            all.finite(),
            total == all.len(),
            targets(eliminated@).to_set() == eliminated_before(b, majority_mode, round),
            round + all.difference(targets(eliminated@).to_set()).len() <= total,
            decided_from(b, majority_mode, 0, total + 1) == decided_from(
                b,
                majority_mode,
                round,
                total + 1,
            ),
            decided_from(b, majority_mode, 0, total) == decided_from(b, majority_mode, round, total),
        decreases all.difference(targets(eliminated@).to_set()).len(),
    {
        let ghost gone = targets(eliminated@).to_set();
        assert(outcome_of_round(b, majority_mode, round) == round_outcome(b, gone, majority_mode));
        match run_round(voters, &eliminated, majority_mode) {
            RoundStep::Decided(r) => {
                proof {
                    if r is Ok {
                        let c = lemma_round_has_live_candidate(b, gone, majority_mode);
                        lemma_inhabited_len(all.difference(gone), c);
                    }
                }
                return r;
            },
            RoundStep::Eliminate(behind) => {
                proof {
                    let c = lemma_round_has_live_candidate(b, gone, majority_mode);
                    lemma_elimination_shrinks(all, gone, targets(behind@).to_set(), c);
                    assert(eliminated_before(b, majority_mode, round + 1) == gone.union(
                        targets(behind@).to_set(),
                    ));
                }
                eliminate(&mut eliminated, &behind);
                proof {
                    round = round + 1;
                }
            },
        }
    }
}

} // verus!
