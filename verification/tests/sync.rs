use device_sync::{
    Action, Device, Gateway, Inbound, Light, LightHistoryRequest, ManualLightStateChange, Pending,
    StateSnapshot, SyncService,
};

fn snapshot(entries: Vec<(Device, bool)>) -> StateSnapshot {
    StateSnapshot { entries }
}

#[test]
fn idle_cycle_asks_for_a_poll_and_nothing_else() {
    let mut service = SyncService::new();
    let out = service.cycle(vec![]);
    assert!(out.state_changes.is_empty());
    assert!(out.histories.is_empty());
    assert_eq!(out.actions, vec![Action::StartPoll]);
}

#[test]
fn manual_change_is_dispatched_and_forwarded() {
    let mut service = SyncService::new();
    let out = service.cycle(vec![Inbound::Manual(ManualLightStateChange {
        light: Light::Kitchen,
        on: true,
    })]);
    // The optimistic notification is re-raised at once...
    assert_eq!(out.state_changes.len(), 1);
    assert_eq!(out.state_changes[0].light, Light::Kitchen);
    assert!(out.state_changes[0].on);
    // ...and the fire-and-forget write is demanded before the poll starts.
    assert_eq!(
        out.actions,
        vec![
            Action::Write { light: Light::Kitchen, on: true },
            Action::StartPoll,
        ]
    );
}

#[test]
fn manual_change_is_not_clobbered_by_a_stale_poll() {
    let mut service = SyncService::new();

    // First poll initializes the cache: the kitchen light is off.
    let (tx, rx) = crossbeam::channel::bounded::<StateSnapshot>(1);
    assert!(service.reconciler.attach_poll(Pending::new(rx)));
    tx.send(snapshot(vec![(Device::Light(Light::Kitchen), false)]))
        .unwrap();
    let out = service.cycle(vec![]);
    assert_eq!(out.state_changes.len(), 1);
    assert!(!out.state_changes[0].on);

    // A second poll is in flight; its answer predates the manual change.
    let (tx, rx) = crossbeam::channel::bounded::<StateSnapshot>(1);
    assert!(service.reconciler.attach_poll(Pending::new(rx)));
    tx.send(snapshot(vec![(Device::Light(Light::Kitchen), false)]))
        .unwrap();

    // The user switches the kitchen light on in the cycle the stale poll
    // result arrives: the manual notification comes first and the stale
    // value, matching the cache, raises no notification at all.
    let out = service.cycle(vec![Inbound::Manual(ManualLightStateChange {
        light: Light::Kitchen,
        on: true,
    })]);
    assert_eq!(out.state_changes.len(), 1);
    assert_eq!(out.state_changes[0].light, Light::Kitchen);
    assert!(out.state_changes[0].on);
}

#[test]
fn history_request_is_forwarded_and_completion_notifies() {
    let mut service = SyncService::new();
    let out = service.cycle(vec![Inbound::History(LightHistoryRequest {
        light: Light::Hall,
    })]);
    assert_eq!(
        out.actions,
        vec![
            Action::FetchHistory { light: Light::Hall },
            Action::StartPoll,
        ]
    );

    // The caller spawns the fetch and tracks it; completion notifies in a
    // later cycle.
    let (tx, rx) = crossbeam::channel::bounded::<Vec<(u32, bool)>>(1);
    service.tracker.track(Light::Hall, Pending::new(rx));
    let out = service.cycle(vec![]);
    assert!(out.histories.is_empty());
    tx.send(vec![(1020, true), (1050, false)]).unwrap();
    let out = service.cycle(vec![]);
    assert_eq!(out.histories.len(), 1);
    assert_eq!(out.histories[0].light, Light::Hall);
    assert_eq!(out.histories[0].history, vec![(1020, true), (1050, false)]);
}

#[test]
fn first_poll_of_the_typical_day_initializes_every_light() {
    let gateway = Gateway::typical_day();
    let mut service = SyncService::new();
    let out = service.cycle(vec![]);
    assert_eq!(out.actions, vec![Action::StartPoll]);

    let (tx, rx) = crossbeam::channel::bounded(1);
    assert!(service.reconciler.attach_poll(Pending::new(rx)));
    tx.send(gateway.get_current_state(360)).unwrap();
    let out = service.cycle(vec![]);
    // Every scheduled light is reported exactly once on the first poll.
    assert_eq!(out.state_changes.len(), 9);
    assert!(out
        .state_changes
        .iter()
        .any(|n| n.light == Light::Kitchen && n.on));
    assert!(out
        .state_changes
        .iter()
        .any(|n| n.light == Light::Hall && !n.on));

    // An identical second poll reports nothing at all.
    let (tx, rx) = crossbeam::channel::bounded(1);
    assert!(service.reconciler.attach_poll(Pending::new(rx)));
    tx.send(gateway.get_current_state(360)).unwrap();
    let out = service.cycle(vec![]);
    assert!(out.state_changes.is_empty());
}

#[test]
fn unresolved_poll_is_never_overlapped_across_cycles() {
    let mut service = SyncService::new();
    let out = service.cycle(vec![]);
    assert_eq!(out.actions, vec![Action::StartPoll]);
    let (_tx, rx) = crossbeam::channel::bounded::<StateSnapshot>(1);
    assert!(service.reconciler.attach_poll(Pending::new(rx)));
    // While the poll is unresolved, no cycle asks for another.
    for _ in 0..5 {
        let out = service.cycle(vec![]);
        assert!(out.state_changes.is_empty());
        assert!(out.actions.is_empty());
    }
}
