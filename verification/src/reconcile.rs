use vstd::prelude::*;

use crate::bridge::Pending;
use crate::device::Device;
use crate::events::ServerLightStateChange;
use crate::state::{
    distinct_devices, lemma_state_of_set, set_state, state_of, StateSnapshot,
};

verus! {

/// Folds one snapshot into a cache, in snapshot order: the updated cache,
/// and the entries whose state differed from the cache when they were
/// reached — unchanged devices are passed over silently.
pub open spec fn reconcile_states(cache: Seq<(Device, bool)>, snap: Seq<(Device, bool)>) -> (
    Seq<(Device, bool)>,
    Seq<(Device, bool)>,
)
    decreases snap.len(),
{
    if snap.len() == 0 {
        (cache, Seq::<(Device, bool)>::empty())
    } else if state_of(cache, snap[0].0) == Some(snap[0].1) {
        reconcile_states(cache, snap.skip(1))
    } else {
        let r = reconcile_states(set_state(cache, snap[0].0, snap[0].1), snap.skip(1));
        (r.0, seq![snap[0]] + r.1)
    }
}

/// The notification each changed entry raises.
pub open spec fn change_events(pairs: Seq<(Device, bool)>) -> Seq<ServerLightStateChange> {
    pairs.map(
        |i: int, p: (Device, bool)| ServerLightStateChange { light: p.0.spec_light(), on: p.1 },
    )
}

/// The state reconciliation loop: holds the last-known state of every device
/// and the at-most-one in-flight full-state poll.
pub struct Reconciler {
    cache: StateSnapshot,
    pending: Option<Pending<StateSnapshot>>,
}

/// One observed step of the reconciliation loop, given what the poll yielded
/// (`polled` is `None` both when no poll was in flight and when the in-flight
/// poll was not ready): how the loop's state changes, which notifications it
/// emits, and whether a new poll should now start.
pub open spec fn reconcile_rel(
    pre: Reconciler,
    post: Reconciler,
    notes: Seq<ServerLightStateChange>,
    start: bool,
    polled: Option<Seq<(Device, bool)>>,
) -> bool {
    match polled {
        None => {
            &&& post == pre
            &&& notes == Seq::<ServerLightStateChange>::empty()
            &&& start == !pre.awaiting()
        },
        Some(s) => {
            &&& pre.awaiting()
            &&& !post.awaiting()
            &&& post.cache_view() == reconcile_states(pre.cache_view(), s).0
            &&& notes == change_events(reconcile_states(pre.cache_view(), s).1)
            &&& start
        },
    }
}

impl Reconciler {
    /// The last-observed state of every device a poll has reported.
    pub closed spec fn cache_view(self) -> Seq<(Device, bool)> {
        self.cache@
    }

    /// Whether a full-state poll is in flight.
    pub closed spec fn awaiting(self) -> bool {
        self.pending is Some
    }

    /// A loop that has observed nothing and awaits nothing.
    pub fn new() -> (r: Reconciler)
        ensures
            r.cache_view() == Seq::<(Device, bool)>::empty(),
            !r.awaiting(),
    {
        Reconciler { cache: StateSnapshot::new(), pending: None }
    }

    /// The cached last-known state of `d`, absent until a poll reports it.
    pub fn cached(&self, d: Device) -> (r: Option<bool>)
        ensures
            r == state_of(self.cache_view(), d),
    {
        self.cache.get(d)
    }

    /// Hands the loop the pending operation of a freshly spawned full-state
    /// poll. Accepted exactly when no poll is in flight; refused — leaving
    /// the loop unchanged and the operation to be discarded — otherwise, so
    /// an unresolved poll is never overlapped.
    pub fn attach_poll(&mut self, p: Pending<StateSnapshot>) -> (accepted: bool)
        ensures
            accepted == !old(self).awaiting(),
            accepted ==> final(self).awaiting() && final(self).cache_view() == old(
                self,
            ).cache_view(),
            !accepted ==> *final(self) == *old(self),
    {
        if self.pending.is_some() {
            false
        } else {
            self.pending = Some(p);
            true
        }
    }

    /// Reconciles one snapshot against the cache: updates the cache to the
    /// snapshot's values and returns one notification per device whose state
    /// differed — never one for an unchanged device, never two for one
    /// device within the pass.
    pub fn apply_snapshot(&mut self, snap: StateSnapshot) -> (notes: Vec<ServerLightStateChange>)
        ensures
            final(self).awaiting() == old(self).awaiting(),
            final(self).cache_view() == reconcile_states(old(self).cache_view(), snap@).0,
            notes@ == change_events(reconcile_states(old(self).cache_view(), snap@).1),
    {
        let ghost c0 = self.cache@;
        let ghost total = reconcile_states(c0, snap@);
        let mut notes: Vec<ServerLightStateChange> = Vec::new();
        let ghost mut done: Seq<(Device, bool)> = Seq::<(Device, bool)>::empty();
        let mut i: usize = 0;
        proof {
            assert(snap@.skip(0) =~= snap@);
        }
        while i < snap.entries.len()
            invariant
                i <= snap.entries@.len(),
                self.awaiting() == old(self).awaiting(),
                reconcile_states(self.cache@, snap@.skip(i as int)).0 == total.0,
                total.1 == done + reconcile_states(self.cache@, snap@.skip(i as int)).1,
                notes@ == change_events(done),
                total == reconcile_states(c0, snap@),
            decreases snap.entries@.len() - i,
        {
            let (d, on) = snap.entries[i];
            proof {
                assert(snap@.skip(i as int)[0] == snap@[i as int]);
                assert(snap@.skip(i as int).skip(1) =~= snap@.skip(i as int + 1));
            }
            let cur = self.cache.get(d);
            let unchanged = match cur {
                Some(x) => x == on,
                None => false,
            };
            if !unchanged {
                self.cache.set(d, on);
                notes.push(ServerLightStateChange { light: d.light(), on });
                proof {
                    assert(change_events(done.push((d, on))) =~= change_events(done).push(
                        ServerLightStateChange { light: d.spec_light(), on },
                    ));
                    done = done.push((d, on));
                    assert(done + reconcile_states(self.cache@, snap@.skip(i as int + 1)).1
                        =~= done.drop_last() + (seq![(d, on)] + reconcile_states(
                        self.cache@,
                        snap@.skip(i as int + 1),
                    ).1));
                }
            }
            i += 1;
        }
        proof {
            assert(snap@.skip(snap@.len() as int) =~= Seq::<(Device, bool)>::empty());
            assert(total.1 =~= done);
        }
        notes
    }

    /// One update cycle of the loop: a non-blocking poll of the in-flight
    /// operation if any, reconciliation of its snapshot when one arrived, and
    /// the decision whether a new poll should start — which it does exactly
    /// when no unresolved poll remains.
    pub fn cycle(&mut self) -> (out: (Vec<ServerLightStateChange>, bool))
        ensures
            out.1 == !final(self).awaiting(),
            exists|polled: Option<Seq<(Device, bool)>>|
                reconcile_rel(*old(self), *final(self), out.0@, out.1, polled),
    {
        let mut got: Option<StateSnapshot> = None;
        let mut was_pending = false;
        match &self.pending {
            Some(p) => {
                was_pending = true;
                got = p.poll();
            },
            None => {},
        }
        if !was_pending {
            let out = (Vec::<ServerLightStateChange>::new(), true);
            proof {
                assert(*self == *old(self));
                assert(out.0@ =~= Seq::<ServerLightStateChange>::empty());
                assert(reconcile_rel(*old(self), *self, out.0@, out.1, None));
                assert(exists|polled: Option<Seq<(Device, bool)>>|
                    reconcile_rel(*old(self), *self, out.0@, out.1, polled));
            }
            return out;
        }
        match got {
            Some(snap) => {
                self.pending = None;
                let ghost s = snap@;
                let notes = self.apply_snapshot(snap);
                let out = (notes, true);
                proof {
                    assert(reconcile_rel(*old(self), *self, out.0@, out.1, Some(s)));
                    assert(exists|polled: Option<Seq<(Device, bool)>>|
                        reconcile_rel(*old(self), *self, out.0@, out.1, polled));
                }
                out
            },
            None => {
                let out = (Vec::<ServerLightStateChange>::new(), false);
                proof {
                    assert(*self == *old(self));
                    assert(out.0@ =~= Seq::<ServerLightStateChange>::empty());
                    assert(reconcile_rel(*old(self), *self, out.0@, out.1, None));
                    assert(exists|polled: Option<Seq<(Device, bool)>>|
                        reconcile_rel(*old(self), *self, out.0@, out.1, polled));
                }
                out
            },
        }
    }
}

/// At most one full-state poll is ever in flight: a cycle starts a new poll
/// only when the slot was idle or the in-flight poll's result was consumed in
/// that same cycle; while a poll is unresolved the loop carries it forward
/// unchanged and starts nothing.
pub proof fn lemma_at_most_one_in_flight(
    pre: Reconciler,
    post: Reconciler,
    notes: Seq<ServerLightStateChange>,
    start: bool,
    polled: Option<Seq<(Device, bool)>>,
)
    requires
        reconcile_rel(pre, post, notes, start, polled),
    ensures
        start ==> !pre.awaiting() || polled is Some,
        pre.awaiting() && polled is None ==> !start && post == pre,
{
}

/// Reconciling a snapshot that agrees everywhere with the cache changes
/// nothing and notifies nobody.
pub proof fn lemma_agreeing_snapshot_quiet(cache: Seq<(Device, bool)>, snap: Seq<(Device, bool)>)
    requires
        forall|i: int|
            0 <= i < snap.len() ==> state_of(cache, (#[trigger] snap[i]).0) == Some(snap[i].1),
    ensures
        reconcile_states(cache, snap) == (cache, Seq::<(Device, bool)>::empty()),
    decreases snap.len(),
{
    if snap.len() > 0 {
        assert(forall|i: int|
            0 <= i < snap.skip(1).len() ==> #[trigger] snap.skip(1)[i] == snap[i + 1]);
        lemma_agreeing_snapshot_quiet(cache, snap.skip(1));
    }
}

/// Devices the snapshot never names keep their cached state through
/// reconciliation.
pub proof fn lemma_reconcile_preserves_absent(
    cache: Seq<(Device, bool)>,
    snap: Seq<(Device, bool)>,
    d: Device,
)
    requires
        forall|i: int| 0 <= i < snap.len() ==> (#[trigger] snap[i]).0 != d,
    ensures
        state_of(reconcile_states(cache, snap).0, d) == state_of(cache, d),
    decreases snap.len(),
{
    if snap.len() > 0 {
        assert(forall|i: int|
            0 <= i < snap.skip(1).len() ==> #[trigger] snap.skip(1)[i] == snap[i + 1]);
        if state_of(cache, snap[0].0) == Some(snap[0].1) {
            lemma_reconcile_preserves_absent(cache, snap.skip(1), d);
        } else {
            lemma_state_of_set(cache, snap[0].0, snap[0].1, d);
            lemma_reconcile_preserves_absent(set_state(cache, snap[0].0, snap[0].1), snap.skip(1), d);
        }
    }
}

/// A device for which the snapshot only repeats what the cache already holds
/// is neither notified nor has its cached state disturbed, whatever the
/// snapshot says about other devices.
pub proof fn lemma_reconcile_no_change_for(
    cache: Seq<(Device, bool)>,
    snap: Seq<(Device, bool)>,
    d: Device,
)
    requires
        forall|i: int|
            0 <= i < snap.len() && (#[trigger] snap[i]).0 == d ==> Some(snap[i].1) == state_of(
                cache,
                d,
            ),
    ensures
        forall|j: int|
            0 <= j < reconcile_states(cache, snap).1.len() ==> (#[trigger] reconcile_states(
                cache,
                snap,
            ).1[j]).0 != d,
        state_of(reconcile_states(cache, snap).0, d) == state_of(cache, d),
    decreases snap.len(),
{
    if snap.len() > 0 {
        let rest = snap.skip(1);
        assert(forall|i: int| 0 <= i < rest.len() ==> #[trigger] rest[i] == snap[i + 1]);
        let h = snap[0];
        if state_of(cache, h.0) == Some(h.1) {
            lemma_reconcile_no_change_for(cache, rest, d);
        } else {
            assert(h.0 != d);
            let cache1 = set_state(cache, h.0, h.1);
            lemma_state_of_set(cache, h.0, h.1, d);
            lemma_reconcile_no_change_for(cache1, rest, d);
            assert forall|j: int| 0 <= j < reconcile_states(cache, snap).1.len() implies (
            #[trigger] reconcile_states(cache, snap).1[j]).0 != d by {
                if j > 0 {
                    assert(reconcile_states(cache, snap).1[j] == reconcile_states(
                        cache1,
                        rest,
                    ).1[j - 1]);
                }
            }
        }
    }
}

/// After reconciling a snapshot of distinct devices, the cache records
/// exactly the snapshot's state for each of its devices.
pub proof fn lemma_reconcile_records(cache: Seq<(Device, bool)>, snap: Seq<(Device, bool)>)
    requires
        distinct_devices(snap),
    ensures
        forall|i: int|
            0 <= i < snap.len() ==> state_of(
                reconcile_states(cache, snap).0,
                (#[trigger] snap[i]).0,
            ) == Some(snap[i].1),
    decreases snap.len(),
{
    if snap.len() > 0 {
        let rest = snap.skip(1);
        assert(forall|i: int| 0 <= i < rest.len() ==> #[trigger] rest[i] == snap[i + 1]);
        let d = snap[0].0;
        let on = snap[0].1;
        let cache1 = if state_of(cache, d) == Some(on) {
            cache
        } else {
            set_state(cache, d, on)
        };
        if state_of(cache, d) != Some(on) {
            lemma_state_of_set(cache, d, on, d);
        }
        assert(distinct_devices(rest));
        lemma_reconcile_records(cache1, rest);
        assert(forall|i: int| 0 <= i < rest.len() ==> (#[trigger] rest[i]).0 != d);
        lemma_reconcile_preserves_absent(cache1, rest, d);
        assert(reconcile_states(cache, snap).0 == reconcile_states(cache1, rest).0);
        assert forall|i: int| 0 <= i < snap.len() implies state_of(
            reconcile_states(cache, snap).0,
            (#[trigger] snap[i]).0,
        ) == Some(snap[i].1) by {
            if i > 0 {
                assert(rest[i - 1] == snap[i]);
                assert(state_of(reconcile_states(cache1, rest).0, rest[i - 1].0) == Some(
                    rest[i - 1].1,
                ));
            }
        }
    }
}

/// If two consecutive polls return identical snapshots, the second emits
/// zero notifications: reconciling a snapshot a second time changes nothing.
pub proof fn lemma_identical_second_poll_quiet(
    cache: Seq<(Device, bool)>,
    snap: Seq<(Device, bool)>,
)
    requires
        distinct_devices(snap),
    ensures
        ({
            let after_first = reconcile_states(cache, snap).0;
            reconcile_states(after_first, snap) == (
                after_first,
                Seq::<(Device, bool)>::empty(),
            )
        }),
{
    lemma_reconcile_records(cache, snap);
    lemma_agreeing_snapshot_quiet(reconcile_states(cache, snap).0, snap);
}

/// Reconciling a snapshot of devices the cache does not know notifies every
/// one of them, in snapshot order, with its new state.
pub proof fn lemma_unknown_devices_all_notify(
    cache: Seq<(Device, bool)>,
    snap: Seq<(Device, bool)>,
)
    requires
        distinct_devices(snap),
        forall|i: int|
            0 <= i < snap.len() ==> state_of(cache, (#[trigger] snap[i]).0) is None,
    ensures
        reconcile_states(cache, snap).1 == snap,
    decreases snap.len(),
{
    if snap.len() > 0 {
        let rest = snap.skip(1);
        assert(forall|i: int| 0 <= i < rest.len() ==> #[trigger] rest[i] == snap[i + 1]);
        let d = snap[0].0;
        let on = snap[0].1;
        let cache1 = set_state(cache, d, on);
        assert forall|i: int| 0 <= i < rest.len() implies state_of(
            cache1,
            (#[trigger] rest[i]).0,
        ) is None by {
            lemma_state_of_set(cache, d, on, rest[i].0);
        }
        lemma_unknown_devices_all_notify(cache1, rest);
        assert(seq![snap[0]] + rest =~= snap);
    }
}

/// On the very first successful poll, with an empty cache, exactly one
/// notification is emitted per device present in the snapshot, in snapshot
/// order, carrying that device's state.
pub proof fn lemma_first_poll_notifies_every_device(snap: Seq<(Device, bool)>)
    requires
        distinct_devices(snap),
    ensures
        reconcile_states(Seq::<(Device, bool)>::empty(), snap).1 == snap,
{
    lemma_unknown_devices_all_notify(Seq::<(Device, bool)>::empty(), snap);
}

} // verus!
