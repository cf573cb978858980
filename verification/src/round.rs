//! Reading a round's tally: the majority threshold, the candidates that reach
//! it, and the candidates on the lowest count.

use vstd::prelude::*;
use crate::facts::{lemma_filter_none, lemma_filter_step, lemma_first_seen, lemma_targets_push};
use crate::model::{
    counter_max, is_lowest, leaders, lowest, majority_threshold, occurrences, reaches,
    trailers,
};
use crate::tally::RoundTally;
use crate::types::{targets, ElectionError};

verus! {

/// The count a candidate needs to win among `num_voters` voters: half of
/// them, rounded up. Fails with `Overflow` exactly if one more voter would not
/// fit in a counter.
pub fn threshold_for(num_voters: u32) -> (r: Result<u32, ElectionError>)
    ensures
        match r {
            Ok(t) => num_voters + 1 <= counter_max() && t == majority_threshold(num_voters as int),
            Err(e) => e == ElectionError::Overflow && num_voters + 1 > counter_max(),
        },
{
    if num_voters == u32::MAX {
        Err(ElectionError::Overflow)
    } else {
        Ok((num_voters + 1) / 2)
    }
}

impl<'a, T> RoundTally<'a, T> {
    /// The candidates whose count is at least `threshold`, in first-seen
    /// order.
    pub fn leaders(&self, threshold: u32) -> (ahead: Vec<&'a T>)
        requires
            self.wf(),
        ensures
            targets(ahead@) == leaders(self.votes@, threshold as int),
    {
        let ghost seen = targets(self.names@);
        let ghost keep = reaches(self.votes@, threshold as int);
        let mut ahead: Vec<&'a T> = Vec::new();
        let mut k: usize = 0;
        proof {
            lemma_filter_none(seen, keep);
            assert(targets(ahead@) =~= Seq::<T>::empty());
        }
        while k < self.names.len()
            invariant
                k <= self.names.len(),
                self.wf(),
                seen == targets(self.names@),
                keep == reaches(self.votes@, threshold as int),
                targets(ahead@) == seen.take(k as int).filter(keep),
            decreases self.names.len() - k,
        {
            proof {
                lemma_filter_step(seen, keep, k as int);
                lemma_targets_push(ahead@, self.names@[k as int]);
                assert(seen[k as int] == *self.names@[k as int]);
            }
            if self.counts[k] >= threshold {
                ahead.push(self.names[k]);
            }
            k += 1;
        }
        assert(seen.take(k as int) =~= seen);
        ahead
    }

    /// The candidates that no candidate of the round has fewer votes than, in
    /// first-seen order. There is one whenever the round has a vote.
    pub fn trailers(&self) -> (behind: Vec<&'a T>)
        requires
            self.wf(),
        ensures
            targets(behind@) == trailers(self.votes@),
            self.names@.len() > 0 ==> behind@.len() > 0,
    {
        let ghost seen = targets(self.names@);
        let ghost keep = lowest(self.votes@);
        let mut low: u32 = u32::MAX;
        let mut k: usize = 0;
        let ghost at: int = 0;
        while k < self.counts.len()
            invariant
                k <= self.counts.len(),
                forall|j: int| 0 <= j < k ==> low <= #[trigger] self.counts@[j],
                k == 0 ==> low == u32::MAX,
                k > 0 ==> 0 <= at < k && self.counts@[at] == low,
            decreases self.counts.len() - k,
        {
            if self.counts[k] < low {
                low = self.counts[k];
                proof {
                    at = k as int;
                }
            } else if k == 0 {
                proof {
                    at = 0;
                }
            }
            k += 1;
        }
        proof {
            if self.counts@.len() > 0 {
                assert(self.counts@[at] == low);
            }
            self.lemma_lowest_count(low);
            lemma_filter_none(seen, keep);
        }
        let mut behind: Vec<&'a T> = Vec::new();
        assert(targets(behind@) =~= Seq::<T>::empty());
        k = 0;
        while k < self.names.len()
            invariant
                k <= self.names.len(),
                self.wf(),
                seen == targets(self.names@),
                keep == lowest(self.votes@),
                forall|j: int|
                    0 <= j < self.names@.len() ==> (#[trigger] self.counts@[j] == low
                        <==> is_lowest(self.votes@, *self.names@[j])),
                targets(behind@) == seen.take(k as int).filter(keep),
                forall|j: int| 0 <= j < k && #[trigger] self.counts@[j] == low ==> behind@.len() > 0,
            decreases self.names.len() - k,
        {
            proof {
                lemma_filter_step(seen, keep, k as int);
                lemma_targets_push(behind@, self.names@[k as int]);
                assert(seen[k as int] == *self.names@[k as int]);
            }
            if self.counts[k] == low {
                behind.push(self.names[k]);
            }
            k += 1;
        }
        assert(seen.take(k as int) =~= seen);
        behind
    }

    /// A candidate is on the lowest count exactly if its count is the least
    /// of the tally.
    proof fn lemma_lowest_count(&self, low: u32)
        requires
            self.wf(),
            forall|j: int| 0 <= j < self.counts@.len() ==> low <= #[trigger] self.counts@[j],
            self.counts@.len() > 0 ==> exists|j: int|
                0 <= j < self.counts@.len() && #[trigger] self.counts@[j] == low,
        ensures
            forall|j: int|
                0 <= j < self.names@.len() ==> (#[trigger] self.counts@[j] == low <==> is_lowest(
                    self.votes@,
                    *self.names@[j],
                )),
    {
        let votes = self.votes@;
        let seen = targets(self.names@);
        lemma_first_seen(votes);
        assert forall|j: int| 0 <= j < self.names@.len() implies (#[trigger] self.counts@[j] == low
            <==> is_lowest(votes, *self.names@[j])) by {
            let c = *self.names@[j];
            if self.counts@[j] == low {
                assert forall|d: T| votes.contains(d) implies occurrences(votes, c)
                    <= #[trigger] occurrences(votes, d) by {
                    assert(seen.contains(d));
                    let i = choose|i: int| 0 <= i < seen.len() && seen[i] == d;
                    assert(*self.names@[i] == d);
                    assert(low <= self.counts@[i]);
                }
            }
            if is_lowest(votes, c) {
                let i = choose|i: int| 0 <= i < self.counts@.len() && self.counts@[i] == low;
                let d = *self.names@[i];
                assert(seen[i] == d);
                assert(seen.contains(d));
                assert(votes.contains(d));
                assert(occurrences(votes, c) <= occurrences(votes, d));
            }
        }
    }
}

} // verus!
