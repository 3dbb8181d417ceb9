use vstd::prelude::*;

use crate::bridge::Pending;
use crate::device::Light;
use crate::events::LightHistory;

verus! {

/// One tracked history fetch: the requesting light and its in-flight
/// operation.
pub type HistoryEntry = (Light, Pending<Vec<(u32, bool)>>);

/// The elements a completion mask leaves behind: those whose bit is false,
/// in order.
pub open spec fn masked_kept<A>(s: Seq<A>, mask: Seq<bool>) -> Seq<A>
    recommends
        mask.len() == s.len(),
    decreases s.len(),
{
    if s.len() == 0 {
        Seq::<A>::empty()
    } else {
        let rest = masked_kept(s.drop_last(), mask.drop_last());
        if mask.last() {
            rest
        } else {
            rest.push(s.last())
        }
    }
}

/// The elements a completion mask takes out: those whose bit is true, in
/// order.
pub open spec fn masked_taken<A>(s: Seq<A>, mask: Seq<bool>) -> Seq<A>
    recommends
        mask.len() == s.len(),
    decreases s.len(),
{
    if s.len() == 0 {
        Seq::<A>::empty()
    } else {
        let rest = masked_taken(s.drop_last(), mask.drop_last());
        if mask.last() {
            rest.push(s.last())
        } else {
            rest
        }
    }
}

/// One observed sweep of the tracker, given which tracked fetches completed
/// (`mask`): every completed entry leaves the set and raises one completion
/// notification for its light, in tracked order; the entries not yet ready
/// carry forward unchanged, in order. Nothing is assumed about the history
/// payloads the workers delivered.
pub open spec fn history_check_rel(
    pre: Seq<HistoryEntry>,
    post: Seq<HistoryEntry>,
    out: Seq<LightHistory>,
    mask: Seq<bool>,
) -> bool {
    &&& mask.len() == pre.len()
    &&& post == masked_kept(pre, mask)
    &&& out.len() == masked_taken(pre, mask).len()
    &&& forall|k: int|
        0 <= k < out.len() ==> (#[trigger] out[k]).light == masked_taken(pre, mask)[k].0
}

/// Manages the unbounded set of independent, concurrently outstanding
/// history fetches, each tagged with the light that asked for it.
pub struct HistoryTracker {
    entries: Vec<HistoryEntry>,
}

impl View for HistoryTracker {
    type V = Seq<HistoryEntry>;

    closed spec fn view(&self) -> Seq<HistoryEntry> {
        self.entries@
    }
}

impl HistoryTracker {
    /// A tracker with no outstanding fetch.
    pub fn new() -> (t: HistoryTracker)
        ensures
            t@ == Seq::<HistoryEntry>::empty(),
    {
        HistoryTracker { entries: Vec::new() }
    }

    /// Tracks one freshly spawned history fetch for `light`. Requests are
    /// never deduplicated: a new entry is appended even when one for the
    /// same light is already outstanding, and each completes independently.
    pub fn track(&mut self, light: Light, p: Pending<Vec<(u32, bool)>>)
        ensures
            final(self)@ == old(self)@.push((light, p)),
    {
        self.entries.push((light, p));
    }

    /// How many fetches are outstanding.
    pub fn outstanding(&self) -> (n: usize)
        ensures
            n == self@.len(),
    {
        self.entries.len()
    }

    /// One sweep of the tracked set: polls every entry non-blockingly; each
    /// entry whose fetch completed notifies with its light and whatever
    /// history arrived and is removed; the rest are left untouched for the
    /// next cycle.
    pub fn check(&mut self) -> (out: Vec<LightHistory>)
        ensures
            exists|mask: Seq<bool>| history_check_rel(old(self)@, final(self)@, out@, mask),
    {
        let ghost pre = self.entries@;
        let mut out: Vec<LightHistory> = Vec::new();
        let ghost mut mask: Seq<bool> = Seq::<bool>::empty();
        let mut i: usize = 0;
        proof {
            assert(pre.take(0) =~= Seq::<HistoryEntry>::empty());
            assert(pre.skip(0) =~= pre);
        }
        while i < self.entries.len()
            invariant
                mask.len() <= pre.len(),
                i <= self.entries@.len(),
                self.entries@ == masked_kept(pre.take(mask.len() as int), mask) + pre.skip(
                    mask.len() as int,
                ),
                i as int == masked_kept(pre.take(mask.len() as int), mask).len(),
                out@.len() == masked_taken(pre.take(mask.len() as int), mask).len(),
                forall|k: int|
                    0 <= k < out@.len() ==> (#[trigger] out@[k]).light == masked_taken(
                        pre.take(mask.len() as int),
                        mask,
                    )[k].0,
            decreases pre.len() - mask.len(),
        {
            let ghost n = mask.len() as int;
            let ghost m0 = mask;
            let ghost kept0 = masked_kept(pre.take(n), m0);
            proof {
                assert(forall|j: int|
                    0 <= j < pre.skip(n).len() ==> #[trigger] pre.skip(n)[j] == pre[n + j]);
                assert(forall|j: int|
                    0 <= j < pre.skip(n + 1).len() ==> #[trigger] pre.skip(n + 1)[j] == pre[n + 1
                        + j]);
                assert(self.entries@[i as int] == pre.skip(n)[0]);
                assert(pre.take(n + 1).drop_last() =~= pre.take(n));
                assert(pre.take(n + 1).last() == pre[n]);
            }
            let got = self.entries[i].1.poll();
            match got {
                Some(h) => {
                    let entry = self.entries.remove(i);
                    out.push(LightHistory { light: entry.0, history: h });
                    proof {
                        mask = m0.push(true);
                        assert(mask.drop_last() =~= m0);
                        assert(masked_kept(pre.take(n + 1), mask) == kept0);
                        assert(masked_taken(pre.take(n + 1), mask) == masked_taken(
                            pre.take(n),
                            m0,
                        ).push(pre[n]));
                        assert(self.entries@ =~= kept0 + pre.skip(n + 1));
                    }
                },
                None => {
                    i += 1;
                    proof {
                        mask = m0.push(false);
                        assert(mask.drop_last() =~= m0);
                        assert(masked_kept(pre.take(n + 1), mask) == kept0.push(pre[n]));
                        assert(masked_taken(pre.take(n + 1), mask) == masked_taken(
                            pre.take(n),
                            m0,
                        ));
                        assert(kept0.push(pre[n]) + pre.skip(n + 1) =~= kept0 + pre.skip(n));
                    }
                },
            }
        }
        proof {
            assert(pre.skip(mask.len() as int).len() == 0);
            assert(mask.len() == pre.len());
            assert(pre.take(mask.len() as int) =~= pre);
            assert(old(self)@ == pre);
            assert(history_check_rel(old(self)@, self@, out@, mask));
            assert(exists|m: Seq<bool>| history_check_rel(old(self)@, self@, out@, m));
        }
        out
    }
}

/// Every outstanding fetch that has completed notifies, independently of the
/// others: when all tracked fetches are ready, one notification is emitted
/// per entry, in tracked order — two requests for the same light thus yield
/// two notifications — and the tracked set empties.
pub proof fn lemma_all_ready_notifies_each(
    pre: Seq<HistoryEntry>,
    post: Seq<HistoryEntry>,
    out: Seq<LightHistory>,
    mask: Seq<bool>,
)
    requires
        history_check_rel(pre, post, out, mask),
        forall|i: int| 0 <= i < mask.len() ==> mask[i],
    ensures
        post == Seq::<HistoryEntry>::empty(),
        out.len() == pre.len(),
        forall|k: int| 0 <= k < out.len() ==> (#[trigger] out[k]).light == pre[k].0,
{
    lemma_masked_all_true(pre, mask);
}

/// A mask that takes everything keeps nothing and takes the whole sequence.
proof fn lemma_masked_all_true<A>(s: Seq<A>, mask: Seq<bool>)
    requires
        mask.len() == s.len(),
        forall|i: int| 0 <= i < mask.len() ==> mask[i],
    ensures
        masked_kept(s, mask) == Seq::<A>::empty(),
        masked_taken(s, mask) == s,
    decreases s.len(),
{
    if s.len() > 0 {
        assert(forall|i: int|
            0 <= i < mask.drop_last().len() ==> mask.drop_last()[i] == mask[i]);
        lemma_masked_all_true(s.drop_last(), mask.drop_last());
        assert(masked_taken(s, mask) =~= s);
    }
}

} // verus!
