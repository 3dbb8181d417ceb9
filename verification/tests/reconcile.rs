use device_sync::{Device, Light, Pending, Reconciler, StateSnapshot};

fn snapshot(entries: Vec<(Device, bool)>) -> StateSnapshot {
    StateSnapshot { entries }
}

#[test]
fn first_poll_notifies_every_device_exactly_once() {
    let mut reconciler = Reconciler::new();
    let notes = reconciler.apply_snapshot(snapshot(vec![
        (Device::Light(Light::Kitchen), true),
        (Device::Light(Light::Hall), false),
    ]));
    assert_eq!(notes.len(), 2);
    assert_eq!(notes[0].light, Light::Kitchen);
    assert!(notes[0].on);
    assert_eq!(notes[1].light, Light::Hall);
    assert!(!notes[1].on);
    assert_eq!(reconciler.cached(Device::Light(Light::Kitchen)), Some(true));
    assert_eq!(reconciler.cached(Device::Light(Light::Hall)), Some(false));
}

#[test]
fn identical_second_poll_emits_nothing() {
    let mut reconciler = Reconciler::new();
    let entries = vec![
        (Device::Light(Light::Kitchen), true),
        (Device::Light(Light::Hall), false),
    ];
    let first = reconciler.apply_snapshot(snapshot(entries.clone()));
    assert_eq!(first.len(), 2);
    let second = reconciler.apply_snapshot(snapshot(entries));
    assert!(second.is_empty());
}

#[test]
fn only_changed_devices_are_notified() {
    let mut reconciler = Reconciler::new();
    reconciler.apply_snapshot(snapshot(vec![
        (Device::Light(Light::Kitchen), true),
        (Device::Light(Light::Hall), false),
    ]));
    let notes = reconciler.apply_snapshot(snapshot(vec![
        (Device::Light(Light::Kitchen), true),
        (Device::Light(Light::Hall), true),
    ]));
    assert_eq!(notes.len(), 1);
    assert_eq!(notes[0].light, Light::Hall);
    assert!(notes[0].on);
}

#[test]
fn at_most_one_poll_in_flight() {
    let mut reconciler = Reconciler::new();
    let (_tx1, rx1) = crossbeam::channel::bounded::<StateSnapshot>(1);
    assert!(reconciler.attach_poll(Pending::new(rx1)));
    // A second poll is refused while the first is unresolved.
    let (_tx2, rx2) = crossbeam::channel::bounded::<StateSnapshot>(1);
    assert!(!reconciler.attach_poll(Pending::new(rx2)));
    // An unresolved poll is carried forward: no notification, no new start.
    let (notes, start) = reconciler.cycle();
    assert!(notes.is_empty());
    assert!(!start);
}

#[test]
fn resolved_poll_frees_the_slot_in_the_same_cycle() {
    let mut reconciler = Reconciler::new();
    let (tx, rx) = crossbeam::channel::bounded::<StateSnapshot>(1);
    assert!(reconciler.attach_poll(Pending::new(rx)));
    tx.send(snapshot(vec![(Device::Light(Light::Hallway), true)]))
        .unwrap();
    let (notes, start) = reconciler.cycle();
    assert_eq!(notes.len(), 1);
    assert_eq!(notes[0].light, Light::Hallway);
    assert!(notes[0].on);
    // The slot is free again: a new poll starts with no intermediate idle cycle.
    assert!(start);
    let (_tx3, rx3) = crossbeam::channel::bounded::<StateSnapshot>(1);
    assert!(reconciler.attach_poll(Pending::new(rx3)));
}

#[test]
fn idle_cycle_requests_a_poll() {
    let mut reconciler = Reconciler::new();
    let (notes, start) = reconciler.cycle();
    assert!(notes.is_empty());
    assert!(start);
}
