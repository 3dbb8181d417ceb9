use vstd::prelude::*;

use crate::device::{Device, Light};
use crate::events::{
    LightHistory, LightHistoryRequest, ManualLightStateChange, ServerLightStateChange,
};
use crate::history::{history_check_rel, HistoryEntry, HistoryTracker};
use crate::reconcile::{
    change_events, lemma_reconcile_no_change_for, reconcile_rel, reconcile_states, Reconciler,
};
use crate::state::state_of;

verus! {

/// One inbound notification a presentation surface raised this cycle.
#[derive(Clone, Copy, PartialEq, Eq, Structural, Debug)]
pub enum Inbound {
    /// The user toggled a light.
    Manual(ManualLightStateChange),
    /// A surface asked for a light's history.
    History(LightHistoryRequest),
}

/// One piece of background work the caller must spawn after a cycle; the
/// service itself never blocks, so all latency-bearing work is handed out.
#[derive(Clone, Copy, PartialEq, Eq, Structural, Debug)]
pub enum Action {
    /// Spawn a full-state poll and attach its pending operation.
    StartPoll,
    /// Spawn a fire-and-forget state write for this light.
    Write { light: Light, on: bool },
    /// Spawn a history fetch for this light and track its pending operation.
    FetchHistory { light: Light },
}

/// Everything one update cycle produced: state-change notifications in
/// dispatch order, history completions, and the background work to spawn.
pub struct CycleOutput {
    pub state_changes: Vec<ServerLightStateChange>,
    pub histories: Vec<LightHistory>,
    pub actions: Vec<Action>,
}

/// The optimistic notification each manual change re-raises, in inbound
/// order.
pub open spec fn manual_events(inbound: Seq<Inbound>) -> Seq<ServerLightStateChange>
    decreases inbound.len(),
{
    if inbound.len() == 0 {
        Seq::<ServerLightStateChange>::empty()
    } else {
        let rest = manual_events(inbound.drop_last());
        match inbound.last() {
            Inbound::Manual(m) => rest.push(ServerLightStateChange { light: m.light, on: m.on }),
            Inbound::History(_) => rest,
        }
    }
}

/// The spawn each inbound notification demands, in inbound order.
pub open spec fn inbound_actions(inbound: Seq<Inbound>) -> Seq<Action>
    decreases inbound.len(),
{
    if inbound.len() == 0 {
        Seq::<Action>::empty()
    } else {
        let rest = inbound_actions(inbound.drop_last());
        match inbound.last() {
            Inbound::Manual(m) => rest.push(Action::Write { light: m.light, on: m.on }),
            Inbound::History(r) => rest.push(Action::FetchHistory { light: r.light }),
        }
    }
}

/// The state a listener is left showing for `light` after applying a
/// notification sequence in order: the last notification for it, if any.
pub open spec fn last_state_for(notes: Seq<ServerLightStateChange>, light: Light) -> Option<bool>
    decreases notes.len(),
{
    if notes.len() == 0 {
        None
    } else if notes.last().light == light {
        Some(notes.last().on)
    } else {
        last_state_for(notes.drop_last(), light)
    }
}

/// Whether every entry the poll (if any) carries for device `d` repeats the
/// state the cache already holds — as a poll begun before a manual change,
/// and thus stale with respect to it, does.
pub open spec fn poll_agrees_on(
    cache: Seq<(Device, bool)>,
    polled: Option<Seq<(Device, bool)>>,
    d: Device,
) -> bool {
    match polled {
        Some(s) => forall|i: int|
            0 <= i < s.len() && (#[trigger] s[i]).0 == d ==> Some(s[i].1) == state_of(cache, d),
        None => true,
    }
}

/// The device state synchronization service: the reconciliation loop and the
/// history request tracker, driven together one update cycle at a time.
pub struct SyncService {
    pub reconciler: Reconciler,
    pub tracker: HistoryTracker,
}

/// One observed update cycle of the whole service, given what the full-state
/// poll yielded (`polled`; `None` when none was in flight or it was not
/// ready) and which tracked history fetches completed (`mask`). Manual
/// changes are handled first — each re-raises its optimistic notification
/// and demands a write — then the reconciliation step runs, then the history
/// sweep; a `StartPoll` action closes the cycle exactly when no unresolved
/// poll remains.
pub open spec fn sync_cycle_rel(
    pre: SyncService,
    post: SyncService,
    inbound: Seq<Inbound>,
    states: Seq<ServerLightStateChange>,
    hists: Seq<LightHistory>,
    actions: Seq<Action>,
    polled: Option<Seq<(Device, bool)>>,
    mask: Seq<bool>,
) -> bool {
    let m = manual_events(inbound);
    let start = polled is Some || !pre.reconciler.awaiting();
    &&& states.len() >= m.len()
    &&& states.take(m.len() as int) == m
    &&& reconcile_rel(pre.reconciler, post.reconciler, states.skip(m.len() as int), start, polled)
    &&& history_check_rel(pre.tracker@, post.tracker@, hists, mask)
    &&& actions == inbound_actions(inbound) + if start {
        seq![Action::StartPoll]
    } else {
        Seq::<Action>::empty()
    }
}

impl SyncService {
    /// A service that has observed nothing, awaits nothing, and tracks no
    /// history fetch.
    pub fn new() -> (s: SyncService)
        ensures
            !s.reconciler.awaiting(),
            s.reconciler.cache_view() == Seq::<(Device, bool)>::empty(),
            s.tracker@ == Seq::<HistoryEntry>::empty(),
    {
        SyncService { reconciler: Reconciler::new(), tracker: HistoryTracker::new() }
    }

    /// One update cycle: handles this cycle's inbound notifications first, so
    /// a manual change is fully dispatched before the poll-driven
    /// reconciliation step runs, then sweeps the outstanding history fetches.
    /// Never blocks; the returned actions name the background work to spawn.
    pub fn cycle(&mut self, inbound: Vec<Inbound>) -> (out: CycleOutput)
        ensures
            exists|polled: Option<Seq<(Device, bool)>>, mask: Seq<bool>|
                sync_cycle_rel(
                    *old(self),
                    *final(self),
                    inbound@,
                    out.state_changes@,
                    out.histories@,
                    out.actions@,
                    polled,
                    mask,
                ),
    {
        let mut states: Vec<ServerLightStateChange> = Vec::new();
        let mut actions: Vec<Action> = Vec::new();
        let mut i: usize = 0;
        while i < inbound.len()
            invariant
                i <= inbound@.len(),
                states@ == manual_events(inbound@.take(i as int)),
                actions@ == inbound_actions(inbound@.take(i as int)),
                *self == *old(self),
            decreases inbound@.len() - i,
        {
            proof {
                assert(inbound@.take(i + 1).drop_last() =~= inbound@.take(i as int));
                assert(inbound@.take(i + 1).last() == inbound@[i as int]);
            }
            match inbound[i] {
                Inbound::Manual(m) => {
                    states.push(ServerLightStateChange { light: m.light, on: m.on });
                    actions.push(Action::Write { light: m.light, on: m.on });
                },
                Inbound::History(r) => {
                    actions.push(Action::FetchHistory { light: r.light });
                },
            }
            i += 1;
        }
        proof {
            assert(inbound@.take(inbound@.len() as int) =~= inbound@);
        }
        let ghost pre_rec = self.reconciler;
        let mut rec_out = self.reconciler.cycle();
        let start = rec_out.1;
        let ghost rec_notes = rec_out.0@;
        states.append(&mut rec_out.0);
        let ghost pre_tracker = self.tracker;
        let hists = self.tracker.check();
        if start {
            actions.push(Action::StartPoll);
        }
        let out = CycleOutput { state_changes: states, histories: hists, actions };
        proof {
            let polled = choose|p: Option<Seq<(Device, bool)>>|
                reconcile_rel(pre_rec, self.reconciler, rec_notes, start, p);
            let mask = choose|m: Seq<bool>|
                history_check_rel(pre_tracker@, self.tracker@, hists@, m);
            let mlen = manual_events(inbound@).len() as int;
            assert(out.state_changes@.take(mlen) =~= manual_events(inbound@));
            assert(out.state_changes@.skip(mlen) =~= rec_notes);
            match polled {
                Some(_) => {
                    assert(start == (polled is Some || !pre_rec.awaiting()));
                },
                None => {
                    assert(start == !pre_rec.awaiting());
                },
            }
            if start {
                assert(out.actions@ =~= inbound_actions(inbound@) + seq![Action::StartPoll]);
            } else {
                assert(out.actions@ =~= inbound_actions(inbound@) + Seq::<Action>::empty());
            }
            assert(sync_cycle_rel(
                *old(self),
                *self,
                inbound@,
                out.state_changes@,
                out.histories@,
                out.actions@,
                polled,
                mask,
            ));
            assert(exists|p: Option<Seq<(Device, bool)>>, m: Seq<bool>|
                sync_cycle_rel(
                    *old(self),
                    *self,
                    inbound@,
                    out.state_changes@,
                    out.histories@,
                    out.actions@,
                    p,
                    m,
                ));
        }
        out
    }
}

/// The last notification a sequence holds for `light` is unaffected by
/// appending notifications for other lights, and is the appended one when it
/// concerns `light`.
pub proof fn lemma_last_state_concat(
    a: Seq<ServerLightStateChange>,
    b: Seq<ServerLightStateChange>,
    light: Light,
)
    ensures
        last_state_for(a + b, light) == match last_state_for(b, light) {
            Some(v) => Some(v),
            None => last_state_for(a, light),
        },
    decreases b.len(),
{
    if b.len() == 0 {
        assert(a + b =~= a);
    } else {
        assert((a + b).drop_last() =~= a + b.drop_last());
        assert((a + b).last() == b.last());
        lemma_last_state_concat(a, b.drop_last(), light);
    }
}

/// A sequence with no notification for `light` leaves a listener's state for
/// it untouched.
pub proof fn lemma_last_state_absent(notes: Seq<ServerLightStateChange>, light: Light)
    requires
        forall|i: int| 0 <= i < notes.len() ==> (#[trigger] notes[i]).light != light,
    ensures
        last_state_for(notes, light) is None,
    decreases notes.len(),
{
    if notes.len() > 0 {
        lemma_last_state_absent(notes.drop_last(), light);
    }
}

/// A manual change is never clobbered within its own cycle by a stale poll:
/// when the cycle's poll result — begun before the change, so it only
/// repeats the cached state for the changed light — arrives in the same
/// cycle, the last notification a listener sees for that light is still the
/// manual one.
pub proof fn lemma_manual_change_wins(
    pre: SyncService,
    post: SyncService,
    inbound: Seq<Inbound>,
    states: Seq<ServerLightStateChange>,
    hists: Seq<LightHistory>,
    actions: Seq<Action>,
    polled: Option<Seq<(Device, bool)>>,
    mask: Seq<bool>,
    light: Light,
    on: bool,
)
    requires
        sync_cycle_rel(pre, post, inbound, states, hists, actions, polled, mask),
        last_state_for(manual_events(inbound), light) == Some(on),
        poll_agrees_on(pre.reconciler.cache_view(), polled, Device::Light(light)),
    ensures
        last_state_for(states, light) == Some(on),
{
    let m = manual_events(inbound);
    let r = states.skip(m.len() as int);
    assert(states =~= m + r);
    match polled {
        None => {
            assert(r.len() == 0);
            lemma_last_state_concat(m, r, light);
        },
        Some(s) => {
            let d = Device::Light(light);
            let cache = pre.reconciler.cache_view();
            lemma_reconcile_no_change_for(cache, s, d);
            let changed = reconcile_states(cache, s).1;
            assert(r == change_events(changed));
            assert forall|j: int| 0 <= j < r.len() implies (#[trigger] r[j]).light != light by {
                assert(r[j] == change_events(changed)[j]);
                assert(r[j].light == changed[j].0.spec_light());
                if r[j].light == light {
                    assert(changed[j].0 == Device::Light(light));
                }
            }
            lemma_last_state_absent(r, light);
            lemma_last_state_concat(m, r, light);
        },
    }
}

} // verus!
