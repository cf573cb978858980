//! What holds of every election.

use vstd::prelude::*;
use crate::facts::{
    lemma_elimination_shrinks, lemma_filtered_member, lemma_first_seen, lemma_inhabited_len,
    lemma_occurrences_positive, lemma_votes_are_live,
};
use crate::model::{
    candidates, counter_max, decided_from, decided_within, election_outcome, eliminated_before,
    first_seen, is_lowest, leaders, lowest, majority_threshold, occurrences, outcome_of_round,
    reaches, round_outcome, round_votes, trailers, voter_count, RoundOutcome,
};
use crate::types::{ElectionError, MajorityMode, Outcome};

verus! {

/// Among the candidates with a vote there is one that none has fewer votes
/// than.
pub proof fn lemma_lowest_exists<T>(votes: Seq<T>, c: T) -> (d: T)
    requires
        votes.contains(c),
    ensures
        votes.contains(d),
        is_lowest(votes, d),
    decreases occurrences(votes, c),
{
    if is_lowest(votes, c) {
        c
    } else {
        let e = choose|e: T| votes.contains(e) && occurrences(votes, c) > occurrences(votes, e);
        lemma_lowest_exists(votes, e)
    }
}

/// A round with a vote and no candidate at the threshold eliminates at least
/// one candidate.
pub proof fn lemma_trailers_exist<T>(votes: Seq<T>)
    requires
        votes.len() > 0,
    ensures
        trailers(votes).len() > 0,
{
    assert(votes.contains(votes[0]));
    let d = lemma_lowest_exists(votes, votes[0]);
    lemma_first_seen(votes);
    let seen = first_seen(votes);
    assert(seen.contains(d));
    let i = choose|i: int| 0 <= i < seen.len() && seen[i] == d;
    seen.lemma_filter_contains(lowest(votes), i);
}

/// A round that eliminates takes at least one candidate out of the running;
/// a round that finds a winner or a tie still has a candidate in it.
pub proof fn lemma_round_has_live_candidate<T>(
    ballots: Seq<Seq<T>>,
    eliminated: Set<T>,
    mode: MajorityMode,
) -> (c: T)
    requires
        round_outcome(ballots, eliminated, mode) is Eliminate || round_outcome(
            ballots,
            eliminated,
            mode,
        ) matches RoundOutcome::Decided(Ok(_)),
    ensures
        candidates(ballots).contains(c),
        !eliminated.contains(c),
        round_outcome(ballots, eliminated, mode) matches RoundOutcome::Eliminate(out)
            ==> out.to_set().contains(c),
{
    let votes = round_votes(ballots, eliminated);
    let threshold = majority_threshold(voter_count(ballots, eliminated, mode));
    let seen = first_seen(votes);
    let c = if leaders(votes, threshold).len() == 0 {
        lemma_trailers_exist(votes);
        lemma_filtered_member(seen, lowest(votes), 0);
        trailers(votes)[0]
    } else {
        lemma_filtered_member(seen, reaches(votes, threshold), 0);
        leaders(votes, threshold)[0]
    };
    lemma_first_seen(votes);
    assert(votes.contains(c));
    lemma_votes_are_live(ballots, eliminated, ballots.len() as int, c);
    c
}

/// From a round at which no more candidates are out of the running than
/// rounds have passed, the election is decided before the candidates run out,
/// and a winner or a tie is found one round earlier than that.
pub proof fn lemma_decided_in_time<T>(ballots: Seq<Seq<T>>, mode: MajorityMode, round: nat)
    requires
        round + candidates(ballots).difference(eliminated_before(ballots, mode, round)).len()
            <= candidates(ballots).len(),
    ensures
        decided_from(ballots, mode, round, candidates(ballots).len() + 1) is Some,
        decided_from(ballots, mode, round, candidates(ballots).len() + 1) matches Some(Ok(_))
            ==> decided_from(ballots, mode, round, candidates(ballots).len()) == decided_from(
            ballots,
            mode,
            round,
            candidates(ballots).len() + 1,
        ),
    decreases candidates(ballots).difference(eliminated_before(ballots, mode, round)).len(),
{
    let all = candidates(ballots);
    let gone = eliminated_before(ballots, mode, round);
    match round_outcome(ballots, gone, mode) {
        RoundOutcome::Decided(r) => {
            if r is Ok {
                let c = lemma_round_has_live_candidate(ballots, gone, mode);
                lemma_inhabited_len(all.difference(gone), c);
            }
        },
        RoundOutcome::Eliminate(out) => {
            let c = lemma_round_has_live_candidate(ballots, gone, mode);
            lemma_elimination_shrinks(all, gone, out.to_set(), c);
            assert(eliminated_before(ballots, mode, round + 1) == gone.union(out.to_set()));
            lemma_decided_in_time(ballots, mode, round + 1);
        },
    }
}

/// Every election is decided: with `n` candidates on the ballots, one of the
/// first `n + 1` rounds ends in a winner, a tie or an error, and a winner or a
/// tie is found within the first `n` rounds.
pub proof fn lemma_election_decides<T>(ballots: Seq<Seq<T>>, mode: MajorityMode)
    ensures
        election_outcome(ballots, mode) is Some,
        election_outcome(ballots, mode) matches Some(Ok(_)) ==> decided_within(
            ballots,
            mode,
            candidates(ballots).len(),
        ) == election_outcome(ballots, mode),
{
    assert(candidates(ballots).difference(Set::<T>::empty()) =~= candidates(ballots));
    lemma_decided_in_time(ballots, mode, 0);
}

/// The first deciding round at or after `round` and before `limit`: every
/// round before it eliminates, and its outcome is the election's.
pub proof fn lemma_deciding_round<T>(
    ballots: Seq<Seq<T>>,
    mode: MajorityMode,
    round: nat,
    limit: nat,
) -> (last: nat)
    requires
        decided_from(ballots, mode, round, limit) is Some,
    ensures
        round <= last < limit,
        forall|k: nat| round <= k < last ==> #[trigger] outcome_of_round(ballots, mode, k) is Eliminate,
        Some(outcome_of_round(ballots, mode, last)) == match decided_from(
            ballots,
            mode,
            round,
            limit,
        ) {
            Some(r) => Some(RoundOutcome::Decided(r)),
            None => None,
        },
    decreases limit - round,
{
    match outcome_of_round(ballots, mode, round) {
        RoundOutcome::Decided(_) => round,
        RoundOutcome::Eliminate(_) => lemma_deciding_round(ballots, mode, round + 1, limit),
    }
}

/// The candidates out of the running only grow in number from round to round.
pub proof fn lemma_eliminated_grows<T>(
    ballots: Seq<Seq<T>>,
    mode: MajorityMode,
    earlier: nat,
    later: nat,
)
    requires
        earlier <= later,
    ensures
        eliminated_before(ballots, mode, earlier).subset_of(
            eliminated_before(ballots, mode, later),
        ),
    decreases later - earlier,
{
    if earlier < later {
        lemma_eliminated_grows(ballots, mode, earlier, (later - 1) as nat);
    }
}

/// A candidate that is out of the running gets no vote and stands in no
/// tally.
pub proof fn lemma_eliminated_gets_no_vote<T>(ballots: Seq<Seq<T>>, eliminated: Set<T>, c: T)
    requires
        eliminated.contains(c),
    ensures
        occurrences(round_votes(ballots, eliminated), c) == 0,
        !first_seen(round_votes(ballots, eliminated)).contains(c),
{
    let votes = round_votes(ballots, eliminated);
    if votes.contains(c) {
        lemma_votes_are_live(ballots, eliminated, ballots.len() as int, c);
    }
    lemma_occurrences_positive(votes, c);
    lemma_first_seen(votes);
}

/// Once a candidate is eliminated, no later round counts a vote for it.
pub proof fn lemma_eliminated_stays_out<T>(
    ballots: Seq<Seq<T>>,
    mode: MajorityMode,
    earlier: nat,
    later: nat,
    c: T,
)
    requires
        earlier <= later,
        eliminated_before(ballots, mode, earlier).contains(c),
    ensures
        eliminated_before(ballots, mode, later).contains(c),
        occurrences(round_votes(ballots, eliminated_before(ballots, mode, later)), c) == 0,
        !first_seen(round_votes(ballots, eliminated_before(ballots, mode, later))).contains(c),
{
    lemma_eliminated_grows(ballots, mode, earlier, later);
    lemma_eliminated_gets_no_vote(ballots, eliminated_before(ballots, mode, later), c);
}

/// The winner of a round has at least the majority threshold of votes in
/// that round, and so has every candidate of a tie; the counters of such a
/// round are within range.
pub proof fn lemma_round_majority<T>(ballots: Seq<Seq<T>>, eliminated: Set<T>, mode: MajorityMode)
    ensures
        match round_outcome(ballots, eliminated, mode) {
            RoundOutcome::Decided(Ok(Outcome::Winner(c))) => {
                &&& voter_count(ballots, eliminated, mode) < counter_max()
                &&& occurrences(round_votes(ballots, eliminated), c) >= majority_threshold(
                    voter_count(ballots, eliminated, mode),
                )
            },
            RoundOutcome::Decided(Ok(Outcome::Tie(tied))) => {
                &&& voter_count(ballots, eliminated, mode) < counter_max()
                &&& tied.len() >= 2
                &&& forall|i: int|
                    0 <= i < tied.len() ==> occurrences(
                        round_votes(ballots, eliminated),
                        #[trigger] tied[i],
                    ) >= majority_threshold(voter_count(ballots, eliminated, mode))
            },
            _ => true,
        },
{
    let votes = round_votes(ballots, eliminated);
    let threshold = majority_threshold(voter_count(ballots, eliminated, mode));
    let ahead = leaders(votes, threshold);
    assert forall|i: int| 0 <= i < ahead.len() implies occurrences(votes, #[trigger] ahead[i])
        >= threshold by {
        first_seen(votes).lemma_filter_pred(reaches(votes, threshold), i);
    }
}

/// A round ends in `Overflow` exactly if it has more voters than a counter
/// can hold, or as many as it can hold and a vote, so that the threshold
/// cannot be worked out. Every other round is counted within range.
pub proof fn lemma_overflow_detected<T>(ballots: Seq<Seq<T>>, eliminated: Set<T>, mode: MajorityMode)
    ensures
        round_outcome(ballots, eliminated, mode) == RoundOutcome::<T>::Decided(
            Err(ElectionError::Overflow),
        ) <==> voter_count(ballots, eliminated, mode) > counter_max() || (voter_count(
            ballots,
            eliminated,
            mode,
        ) == counter_max() && round_votes(ballots, eliminated).len() > 0),
        round_outcome(ballots, eliminated, mode) is Eliminate ==> voter_count(
            ballots,
            eliminated,
            mode,
        ) < counter_max(),
{
}

/// The election's winner has at least the majority threshold of votes in the
/// round that decides it, and so has every candidate of a tie. That round is
/// returned.
pub proof fn lemma_final_round_majority<T>(ballots: Seq<Seq<T>>, mode: MajorityMode) -> (last: nat)
    ensures
        last <= candidates(ballots).len(),
        election_outcome(ballots, mode) matches Some(r) && outcome_of_round(ballots, mode, last)
            == RoundOutcome::Decided(r),
        match election_outcome(ballots, mode) {
            Some(Ok(Outcome::Winner(c))) => occurrences(
                round_votes(ballots, eliminated_before(ballots, mode, last)),
                c,
            ) >= majority_threshold(
                voter_count(ballots, eliminated_before(ballots, mode, last), mode),
            ),
            Some(Ok(Outcome::Tie(tied))) => forall|i: int|
                0 <= i < tied.len() ==> occurrences(
                    round_votes(ballots, eliminated_before(ballots, mode, last)),
                    #[trigger] tied[i],
                ) >= majority_threshold(
                    voter_count(ballots, eliminated_before(ballots, mode, last), mode),
                ),
            _ => true,
        },
{
    lemma_election_decides(ballots, mode);
    let last = lemma_deciding_round(ballots, mode, 0, candidates(ballots).len() + 1);
    lemma_round_majority(ballots, eliminated_before(ballots, mode, last), mode);
    last
}

} // verus!
