//! The concurrent fetch orchestrator's control state. The shard list is
//! walked in consecutive batches of at most `MAX_CONCURRENT` filenames; the
//! caller fetches one batch concurrently, hands the outcomes back, and the
//! orchestrator either records them all or fails with the failing shard's own
//! error, discarding everything — no partial result is ever returned.

use vstd::prelude::*;
use crate::header::CheckpointMetadata;
use crate::header::ShardHeader;
use crate::header::seq_views;

verus! {

/// Upper bound on how many shard fetches may be in flight at once.
pub const MAX_CONCURRENT: usize = 8;

/// Progress of one orchestration run over a fixed shard list.
pub struct Orchestrator {
    /// The full, resolved shard list, fixed for the whole run.
    pub shards: Vec<String>,
    /// How many leading shards have completed; the batch being fetched (if
    /// any) starts here.
    pub fetched: usize,
    /// One completed header per completed shard, in shard-list order.
    pub results: Vec<CheckpointMetadata>,
}

impl Orchestrator {
    /// The state is consistent: exactly the shards before `fetched` have a
    /// result, each recorded under its own filename.
    pub open spec fn wf(self) -> bool {
        &&& self.fetched <= self.shards@.len()
        &&& self.results@.len() == self.fetched
        &&& forall|i: int|
            0 <= i < self.fetched ==> (#[trigger] self.results@[i]).filename@ == self.shards@[i]@
    }

    /// How many shards the next batch holds.
    pub open spec fn spec_batch_len(self) -> int {
        if self.shards@.len() - self.fetched >= MAX_CONCURRENT {
            MAX_CONCURRENT as int
        } else {
            self.shards@.len() - self.fetched
        }
    }

    pub fn new(shards: Vec<String>) -> (r: Orchestrator)
        ensures
            r.wf(),
            r.shards@ == shards@,
            r.fetched == 0,
            r.results@.len() == 0,
    {
        Orchestrator { shards, fetched: 0, results: Vec::new() }
    }

    pub fn is_done(&self) -> (r: bool)
        ensures
            r <==> self.fetched == self.shards@.len(),
    {
        self.fetched == self.shards.len()
    }

    /// The next batch of shard filenames to fetch concurrently: never more
    /// than `MAX_CONCURRENT` of them, taken in order from the first shard not
    /// yet completed.
    #[verifier::loop_isolation(false)]
    pub fn next_batch(&self) -> (b: Vec<String>)
        requires
            self.wf(),
        ensures
            b@.len() <= MAX_CONCURRENT,
            b@.len() == self.spec_batch_len(),
            seq_views(b@) == seq_views(
                self.shards@.subrange(self.fetched as int, self.fetched + b@.len()),
            ),
    {
        let remaining = self.shards.len() - self.fetched;
        let take = if remaining >= MAX_CONCURRENT {
            MAX_CONCURRENT
        } else {
            remaining
        };
        let mut b: Vec<String> = Vec::new();
        let mut i: usize = 0;
        while i < take
            invariant
                self.wf(),
                take == self.spec_batch_len(),
                i <= take,
                self.fetched + take <= self.shards@.len(),
                b@.len() == i,
                forall|j: int| 0 <= j < i ==> (#[trigger] b@[j])@ == self.shards@[self.fetched + j]@,
            decreases take - i,
        {
            b.push(self.shards[self.fetched + i].clone());
            i += 1;
        }
        proof {
            let sub = self.shards@.subrange(self.fetched as int, self.fetched + b@.len());
            assert(seq_views(b@) =~= seq_views(sub));
        }
        b
    }

    /// Record the outcomes of one batch, in batch order. If every fetch
    /// succeeded, all its headers are recorded and the run advances past the
    /// batch. If any fetch failed, the run fails with the first failing
    /// shard's own error, the state is left as it was, and none of the
    /// batch's results is kept.
    #[verifier::loop_isolation(false)]
    pub fn on_batch_done<E>(&mut self, outcomes: Vec<Result<ShardHeader, E>>) -> (r: Result<
        (),
        E,
    >)
        requires
            old(self).wf(),
            outcomes@.len() == old(self).spec_batch_len(),
        ensures
            final(self).wf(),
            final(self).shards@ == old(self).shards@,
            match r {
                Ok(_) => {
                    &&& forall|i: int| 0 <= i < outcomes@.len() ==> (#[trigger] outcomes@[i]) is Ok
                    &&& final(self).fetched == old(self).fetched + outcomes@.len()
                    &&& final(self).results@.len() == final(self).fetched
                    &&& forall|i: int|
                        0 <= i < old(self).fetched ==> #[trigger] final(self).results@[i]
                            == old(self).results@[i]
                    &&& forall|i: int|
                        0 <= i < outcomes@.len() ==> (#[trigger] final(self).results@[old(
                            self,
                        ).fetched + i]).metadata == outcomes@[i]->Ok_0
                },
                Err(e) => {
                    &&& exists|k: int|
                        {
                            &&& 0 <= k < outcomes@.len()
                            &&& (#[trigger] outcomes@[k]) is Err
                            &&& e == outcomes@[k]->Err_0
                            &&& forall|j: int| 0 <= j < k ==> (#[trigger] outcomes@[j]) is Ok
                        }
                    &&& *final(self) == *old(self)
                },
            },
    {
        let ghost orig = outcomes@;
        let mut outcomes = outcomes;

        let mut k: usize = 0;
        let n = outcomes.len();
        while k < n
            invariant
                outcomes@ == orig,
                n == orig.len(),
                k <= n,
                forall|j: int| 0 <= j < k ==> (#[trigger] orig[j]) is Ok,
            decreases n - k,
        {
            if outcomes[k].is_err() {
                let ghost kk = k as int;
                match outcomes.remove(k) {
                    Err(e) => {
                        proof {
                            assert(orig[kk] is Err && e == orig[kk]->Err_0 && forall|j: int|
                                0 <= j < kk ==> (#[trigger] orig[j]) is Ok);
                        }
                        return Err(e);
                    },
                    Ok(_) => {
                        proof {
                            assert(false);
                        }
                    },
                }
            }
            k += 1;
        }

        let ghost start = self.fetched as int;
        proof {
            vstd::std_specs::vec::axiom_spec_len(&self.shards);
        }
        let mut i: usize = 0;
        while i < n
            invariant
                forall|j: int| 0 <= j < n ==> (#[trigger] orig[j]) is Ok,
                outcomes@ == orig.subrange(i as int, n as int),
                n == orig.len(),
                i <= n,
                self.wf(),
                self.shards@ == old(self).shards@,
                start == old(self).fetched,
                start + n <= self.shards@.len(),
                self.fetched == start + i,
                forall|j: int|
                    0 <= j < start ==> #[trigger] self.results@[j] == old(self).results@[j],
                forall|j: int|
                    0 <= j < i ==> (#[trigger] self.results@[start + j]).metadata == orig[j]->Ok_0,
            decreases n - i,
        {
            let filename = self.shards[self.fetched].clone();
            match outcomes.remove(0) {
                Ok(h) => {
                    self.results.push(CheckpointMetadata { filename, metadata: h });
                    self.fetched += 1;
                },
                Err(_) => {
                    proof {
                        assert(orig.subrange(i as int, n as int)[0] == orig[i as int]);
                        assert(false);
                    }
                },
            }
            i += 1;
        }
        Ok(())
    }

    /// Hand out the completed run: one parsed header per shard, in shard-list
    /// order, each under its shard's filename.
    pub fn into_results(self) -> (r: Vec<CheckpointMetadata>)
        requires
            self.wf(),
            self.fetched == self.shards@.len(),
        ensures
            r@.len() == self.shards@.len(),
            forall|i: int|
                0 <= i < r@.len() ==> (#[trigger] r@[i]).filename@ == self.shards@[i]@,
            r == self.results,
    {
        self.results
    }
}

} // verus!
