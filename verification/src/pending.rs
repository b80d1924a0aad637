//! The pending-retry tracker.
//!
//! A swap observed before upstream finalization is not stored; its
//! transaction id is tracked here, partitioned by data source, until a
//! retry pass snapshots-and-clears the partition and re-resolves each
//! id.  Insertion keeps ids unique; a snapshot hands every tracked id
//! out at once, so no id can be dropped between passes.

use vstd::prelude::*;

use crate::SwapType;

verus! {

/// The ids a sequence of strings holds, as a set of character
/// sequences.
pub open spec fn ids_as_set(ids: Seq<String>) -> Set<Seq<char>> {
    Set::new(|s: Seq<char>| exists|i: int| 0 <= i < ids.len() && ids[i]@ == s)
}

/// One partition of tracked transaction ids, stored without
/// duplicates.
pub struct PendingSet {
    ids: Vec<String>,
}

impl View for PendingSet {
    type V = Set<Seq<char>>;

    closed spec fn view(&self) -> Set<Seq<char>> {
        ids_as_set(self.ids@)
    }
}

impl PendingSet {
    /// No id is stored twice.
    pub closed spec fn wf(&self) -> bool {
        forall|i: int, j: int|
            0 <= i < j < self.ids@.len() ==> (#[trigger] self.ids@[i])@ != (#[trigger] self.ids@[j])@
    }

    /// An empty partition.
    pub fn new() -> (r: PendingSet)
        ensures
            r@ == Set::<Seq<char>>::empty(),
            r.wf(),
    {
        let r = PendingSet { ids: Vec::new() };
        proof {
            assert(r@ =~= Set::<Seq<char>>::empty());
        }
        r
    }

    /// Whether `id` is tracked.
    pub fn contains(&self, id: &String) -> (b: bool)
        ensures
            b == self@.contains(id@),
    {
        let n = self.ids.len();
        let mut i: usize = 0;
        while i < n
            invariant
                n == self.ids@.len(),
                0 <= i <= n,
                forall|k: int| 0 <= k < i ==> (#[trigger] self.ids@[k])@ != id@,
            decreases n - i,
        {
            if self.ids[i].eq(id) {
                assert(self@.contains(id@));
                return true;
            }
            i = i + 1;
        }
        assert(!self@.contains(id@));
        false
    }

    /// Tracks one id; tracking an id twice leaves the partition
    /// unchanged.
    pub fn track(&mut self, id: String)
        requires
            old(self).wf(),
        ensures
            final(self)@ == old(self)@.insert(id@),
            final(self).wf(),
    {
        if !self.contains(&id) {
            let ghost oldids = self.ids@;
            self.ids.push(id);
            proof {
                let newids = self.ids@;
                assert forall|s: Seq<char>| old(self)@.insert(id@).contains(s) implies self@
                    .contains(s) by {
                    if s == id@ {
                        assert(newids[oldids.len() as int]@ == s);
                    } else {
                        let i = choose|i: int| 0 <= i < oldids.len() && (#[trigger] oldids[i])@
                            == s;
                        assert(newids[i]@ == s);
                    }
                }
                assert forall|s: Seq<char>| self@.contains(s) implies old(self)@.insert(
                    id@,
                ).contains(s) by {
                    let i = choose|i: int| 0 <= i < newids.len() && (#[trigger] newids[i])@ == s;
                    if i < oldids.len() {
                        assert(oldids[i]@ == s);
                    }
                }
                assert(self@ =~= old(self)@.insert(id@));
                assert(forall|i: int|
                    0 <= i < oldids.len() ==> (#[trigger] oldids[i])@ != id@) by {
                    assert(!old(self)@.contains(id@));
                }
            }
        } else {
            proof {
                assert(self@ =~= old(self)@.insert(id@));
            }
        }
    }

    /// How many ids are tracked.
    pub fn len(&self) -> (n: usize)
        ensures
            n == self.spec_len(),
    {
        self.ids.len()
    }

    /// The number of stored ids.
    pub closed spec fn spec_len(&self) -> nat {
        self.ids@.len()
    }

    /// Atomically snapshots and clears the partition: the returned
    /// vector holds exactly the ids that were tracked, each once.
    pub fn snapshot_and_clear(&mut self) -> (r: Vec<String>)
        requires
            old(self).wf(),
        ensures
            final(self)@ == Set::<Seq<char>>::empty(),
            final(self).wf(),
            forall|k: int| 0 <= k < r@.len() ==> old(self)@.contains((#[trigger] r@[k])@),
            forall|s: Seq<char>|
                old(self)@.contains(s) ==> exists|k: int| 0 <= k < r@.len() && (#[trigger] r@[k])@
                    == s,
            forall|i: int, j: int|
                0 <= i < j < r@.len() ==> (#[trigger] r@[i])@ != (#[trigger] r@[j])@,
    {
        let mut out: Vec<String> = Vec::new();
        let ghost orig = self.ids@;
        while self.ids.len() > 0
            invariant
                out@.len() + self.ids@.len() == orig.len(),
                self.ids@ =~= orig.take(self.ids@.len() as int),
                forall|k: int|
                    0 <= k < out@.len() ==> #[trigger] out@[k] == orig[orig.len() - 1 - k],
            decreases self.ids@.len(),
        {
            let x = self.ids.pop().unwrap();
            out.push(x);
            proof {
                assert(self.ids@ =~= orig.take(self.ids@.len() as int));
            }
        }
        proof {
            assert(final(self)@ =~= Set::<Seq<char>>::empty());
            assert forall|s: Seq<char>| old(self)@.contains(s) implies exists|k: int|
                0 <= k < out@.len() && (#[trigger] out@[k])@ == s by {
                let i = choose|i: int| 0 <= i < orig.len() && (#[trigger] orig[i])@ == s;
                assert(out@[orig.len() - 1 - i]@ == s);
            }
            assert forall|k: int| 0 <= k < out@.len() implies old(self)@.contains(
                (#[trigger] out@[k])@,
            ) by {
                assert(out@[k] == orig[orig.len() - 1 - k]);
            }
        }
        out
    }
}

/// The process-wide pending tracker: one partition per data source.
pub struct PendingTracker {
    pub native: PendingSet,
    pub trade: PendingSet,
}

impl PendingTracker {
    /// Both partitions are well formed.
    pub open spec fn wf(&self) -> bool {
        self.native.wf() && self.trade.wf()
    }

    /// The partition of one data source.
    pub open spec fn partition(&self, swap_type: SwapType) -> Set<Seq<char>> {
        match swap_type {
            SwapType::NATIVE => self.native@,
            SwapType::TRADE => self.trade@,
        }
    }

    /// An empty tracker.
    pub fn new() -> (r: PendingTracker)
        ensures
            r.wf(),
            r.partition(SwapType::NATIVE) == Set::<Seq<char>>::empty(),
            r.partition(SwapType::TRADE) == Set::<Seq<char>>::empty(),
    {
        PendingTracker { native: PendingSet::new(), trade: PendingSet::new() }
    }

    /// Tracks a pending transaction id in the partition of its source.
    pub fn track(&mut self, transaction_id: String, swap_type: SwapType)
        requires
            old(self).wf(),
        ensures
            final(self).wf(),
            final(self).partition(swap_type) == old(self).partition(swap_type).insert(
                transaction_id@,
            ),
            forall|t: SwapType|
                t != swap_type ==> final(self).partition(t) == old(self).partition(t),
    {
        match swap_type {
            SwapType::NATIVE => self.native.track(transaction_id),
            SwapType::TRADE => self.trade.track(transaction_id),
        }
    }

    /// Snapshots and clears the partition of one source; every id
    /// that was tracked there is in the result, exactly once.
    pub fn snapshot_and_clear(&mut self, swap_type: SwapType) -> (r: Vec<String>)
        requires
            old(self).wf(),
        ensures
            final(self).wf(),
            final(self).partition(swap_type) == Set::<Seq<char>>::empty(),
            forall|t: SwapType|
                t != swap_type ==> final(self).partition(t) == old(self).partition(t),
            forall|k: int|
                0 <= k < r@.len() ==> old(self).partition(swap_type).contains((#[trigger] r@[k])@),
            forall|s: Seq<char>|
                old(self).partition(swap_type).contains(s) ==> exists|k: int|
                    0 <= k < r@.len() && (#[trigger] r@[k])@ == s,
            forall|i: int, j: int|
                0 <= i < j < r@.len() ==> (#[trigger] r@[i])@ != (#[trigger] r@[j])@,
    {
        match swap_type {
            SwapType::NATIVE => self.native.snapshot_and_clear(),
            SwapType::TRADE => self.trade.snapshot_and_clear(),
        }
    }
}

} // verus!
