//! Facts about the model that the counting code and the laws rest on.

use vstd::prelude::*;
use vstd::set_lib::lemma_len_subset;
use crate::model::{cast_votes, entries, first_seen, occurrences, top_choice_from, top_choice};
use crate::types::targets;

verus! {

/// Appending a reference appends its target.
pub proof fn lemma_targets_push<T>(refs: Seq<&T>, r: &T)
    ensures
        targets(refs.push(r)) == targets(refs).push(*r),
{
    assert(targets(refs.push(r)) =~= targets(refs).push(*r));
}

/// One more vote for `c` raises the count of `c` by one and no other.
pub proof fn lemma_occurrences_push<T>(votes: Seq<T>, c: T, d: T)
    ensures
        occurrences(votes.push(c), d) == occurrences(votes, d) + if c == d { 1nat } else { 0nat },
{
    assert(votes.push(c).drop_last() =~= votes);
}

/// No candidate has more votes than were cast.
pub proof fn lemma_occurrences_bound<T>(votes: Seq<T>, c: T)
    ensures
        occurrences(votes, c) <= votes.len(),
    decreases votes.len(),
{
    if votes.len() > 0 {
        lemma_occurrences_bound(votes.drop_last(), c);
    }
}

/// A candidate has a vote exactly if its count is positive.
pub proof fn lemma_occurrences_positive<T>(votes: Seq<T>, c: T)
    ensures
        votes.contains(c) <==> occurrences(votes, c) > 0,
    decreases votes.len(),
{
    if votes.len() > 0 {
        let front = votes.drop_last();
        lemma_occurrences_positive(front, c);
        if votes.contains(c) {
            let i = choose|i: int| 0 <= i < votes.len() && votes[i] == c;
            if i < votes.len() - 1 {
                assert(front[i] == c);
            }
        }
        if front.contains(c) {
            let i = choose|i: int| 0 <= i < front.len() && front[i] == c;
            assert(votes[i] == c);
        }
        if votes.last() == c {
            assert(votes[votes.len() - 1] == c);
        }
    }
}

/// What one more vote does to the candidates seen.
pub proof fn lemma_first_seen_push<T>(votes: Seq<T>, c: T)
    ensures
        first_seen(votes.push(c)) == if first_seen(votes).contains(c) {
            first_seen(votes)
        } else {
            first_seen(votes).push(c)
        },
{
    assert(votes.push(c).drop_last() =~= votes);
}

/// The candidates seen are those with a vote, each listed once.
pub proof fn lemma_first_seen<T>(votes: Seq<T>)
    ensures
        first_seen(votes).no_duplicates(),
        forall|c: T| #[trigger] first_seen(votes).contains(c) <==> votes.contains(c),
        first_seen(votes).len() == 0 <==> votes.len() == 0,
    decreases votes.len(),
{
    if votes.len() > 0 {
        let front = votes.drop_last();
        let seen = first_seen(front);
        lemma_first_seen(front);
        assert forall|c: T| #[trigger] first_seen(votes).contains(c) <==> votes.contains(c) by {
            if votes.contains(c) {
                let i = choose|i: int| 0 <= i < votes.len() && votes[i] == c;
                if i < votes.len() - 1 {
                    assert(front[i] == c);
                    assert(seen.contains(c));
                    let j = choose|j: int| 0 <= j < seen.len() && seen[j] == c;
                    assert(first_seen(votes)[j] == c);
                } else if seen.contains(c) {
                } else {
                    assert(first_seen(votes)[seen.len() as int] == c);
                }
            }
            if first_seen(votes).contains(c) {
                let j = choose|j: int| 0 <= j < first_seen(votes).len() && first_seen(votes)[j] == c;
                if j < seen.len() {
                    assert(seen[j] == c);
                    assert(seen.contains(c));
                    let i = choose|i: int| 0 <= i < front.len() && front[i] == c;
                    assert(votes[i] == c);
                } else {
                    assert(votes[votes.len() - 1] == c);
                }
            }
        }
        assert(first_seen(votes).len() > 0) by {
            assert(votes[0] == votes[0]);
            assert(votes.contains(votes[0]));
            assert(first_seen(votes).contains(votes[0]));
        }
    }
}

/// A ballot's choice stands on the ballot and is not eliminated.
pub proof fn lemma_top_choice_from<T>(ballot: Seq<T>, eliminated: Set<T>, start: int, c: T)
    requires
        top_choice_from(ballot, eliminated, start) == Some(c),
    ensures
        ballot.contains(c),
        !eliminated.contains(c),
    decreases ballot.len() - start,
{
    if 0 <= start < ballot.len() {
        if !eliminated.contains(ballot[start]) {
            assert(ballot[start] == c);
        } else {
            lemma_top_choice_from(ballot, eliminated, start + 1, c);
        }
    }
}

/// Later ballots only add votes.
pub proof fn lemma_cast_votes_grow<T>(ballots: Seq<Seq<T>>, eliminated: Set<T>, m: int, n: int)
    requires
        m <= n,
    ensures
        cast_votes(ballots, eliminated, m).len() <= cast_votes(ballots, eliminated, n).len(),
    decreases n - m,
{
    if m < n {
        lemma_cast_votes_grow(ballots, eliminated, m, n - 1);
    }
}

/// Every vote goes to a candidate that some ballot names and that is not
/// eliminated.
pub proof fn lemma_votes_are_live<T>(ballots: Seq<Seq<T>>, eliminated: Set<T>, n: int, c: T)
    requires
        0 <= n <= ballots.len(),
        cast_votes(ballots, eliminated, n).contains(c),
    ensures
        entries(ballots, n).contains(c),
        !eliminated.contains(c),
    decreases n,
{
    let votes = cast_votes(ballots, eliminated, n);
    let i = choose|i: int| 0 <= i < votes.len() && votes[i] == c;
    if n > 0 {
        let earlier = cast_votes(ballots, eliminated, n - 1);
        let ballot = ballots[n - 1];
        if i < earlier.len() {
            assert(earlier[i] == c);
            lemma_votes_are_live(ballots, eliminated, n - 1, c);
            let prior = entries(ballots, n - 1);
            let j = choose|j: int| 0 <= j < prior.len() && prior[j] == c;
            assert(entries(ballots, n)[j] == c);
        } else {
            assert(top_choice(ballot, eliminated) == Some(c));
            lemma_top_choice_from(ballot, eliminated, 0, c);
            let j = choose|j: int| 0 <= j < ballot.len() && ballot[j] == c;
            assert(entries(ballots, n)[entries(ballots, n - 1).len() + j] == c);
        }
    }
}

/// A candidate that has not been seen has no vote.
pub proof fn lemma_unseen_has_no_vote<T>(votes: Seq<T>, c: T)
    requires
        !first_seen(votes).contains(c),
    ensures
        occurrences(votes, c) == 0,
{
    lemma_first_seen(votes);
    lemma_occurrences_positive(votes, c);
}

/// Filtering one element more keeps it or not, after what was kept before.
pub proof fn lemma_filter_step<T>(s: Seq<T>, keep: spec_fn(T) -> bool, k: int)
    requires
        0 <= k < s.len(),
    ensures
        s.take(k + 1).filter(keep) == if keep(s[k]) {
            s.take(k).filter(keep).push(s[k])
        } else {
            s.take(k).filter(keep)
        },
{
    reveal(Seq::filter);
    assert(s.take(k + 1).drop_last() =~= s.take(k));
}

/// Filtering nothing keeps nothing.
pub proof fn lemma_filter_none<T>(s: Seq<T>, keep: spec_fn(T) -> bool)
    ensures
        s.take(0).filter(keep) == Seq::<T>::empty(),
{
    reveal(Seq::filter);
    assert(s.take(0).filter(keep) =~= Seq::<T>::empty());
}

/// Taking candidates that are still in the running out of it leaves fewer in
/// the running.
pub proof fn lemma_elimination_shrinks<T>(all: Set<T>, gone: Set<T>, out: Set<T>, c: T)
    requires
        all.finite(),
        all.contains(c),
        !gone.contains(c),
        out.contains(c),
    ensures
        all.difference(gone.union(out)).len() < all.difference(gone).len(),
{
    let before = all.difference(gone);
    let after = all.difference(gone.union(out));
    assert(after.subset_of(before.remove(c)));
    lemma_len_subset(after, before.remove(c));
}

/// A set with an element has at least one.
pub proof fn lemma_inhabited_len<T>(s: Set<T>, c: T)
    requires
        s.finite(),
        s.contains(c),
    ensures
        s.len() >= 1,
{
    assert(s.remove(c).len() + 1 == s.len());
}

/// A candidate kept by a filter was there before.
pub proof fn lemma_filtered_member<T>(s: Seq<T>, keep: spec_fn(T) -> bool, i: int)
    requires
        0 <= i < s.filter(keep).len(),
    ensures
        s.contains(s.filter(keep)[i]),
{
    let kept = s.filter(keep);
    assert(kept.contains(kept[i]));
    s.lemma_filter_contains_rev(keep, kept[i]);
}

} // verus!
