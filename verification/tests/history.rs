use device_sync::{HistoryTracker, Light, Pending};

#[test]
fn two_requests_for_one_light_complete_independently() {
    let mut tracker = HistoryTracker::new();
    let (tx1, rx1) = crossbeam::channel::bounded::<Vec<(u32, bool)>>(1);
    let (tx2, rx2) = crossbeam::channel::bounded::<Vec<(u32, bool)>>(1);
    tracker.track(Light::Kitchen, Pending::new(rx1));
    tracker.track(Light::Kitchen, Pending::new(rx2));
    assert_eq!(tracker.outstanding(), 2);

    // The second request completes first; it alone notifies.
    tx2.send(vec![(100, true), (200, false)]).unwrap();
    let out = tracker.check();
    assert_eq!(out.len(), 1);
    assert_eq!(out[0].light, Light::Kitchen);
    assert_eq!(out[0].history, vec![(100, true), (200, false)]);
    assert_eq!(tracker.outstanding(), 1);

    // The first completes later, with its own content, independently.
    tx1.send(vec![(300, true)]).unwrap();
    let out = tracker.check();
    assert_eq!(out.len(), 1);
    assert_eq!(out[0].light, Light::Kitchen);
    assert_eq!(out[0].history, vec![(300, true)]);
    assert_eq!(tracker.outstanding(), 0);
}

#[test]
fn unready_entries_carry_forward() {
    let mut tracker = HistoryTracker::new();
    let (_tx, rx) = crossbeam::channel::bounded::<Vec<(u32, bool)>>(1);
    tracker.track(Light::Hall, Pending::new(rx));
    let out = tracker.check();
    assert!(out.is_empty());
    assert_eq!(tracker.outstanding(), 1);
}

#[test]
fn ready_entries_notify_in_tracked_order() {
    let mut tracker = HistoryTracker::new();
    let (tx1, rx1) = crossbeam::channel::bounded::<Vec<(u32, bool)>>(1);
    let (tx2, rx2) = crossbeam::channel::bounded::<Vec<(u32, bool)>>(1);
    tracker.track(Light::Hall, Pending::new(rx1));
    tracker.track(Light::Bedroom1, Pending::new(rx2));
    tx1.send(vec![(1020, true)]).unwrap();
    tx2.send(vec![(317, true)]).unwrap();
    let out = tracker.check();
    assert_eq!(out.len(), 2);
    assert_eq!(out[0].light, Light::Hall);
    assert_eq!(out[1].light, Light::Bedroom1);
    assert_eq!(tracker.outstanding(), 0);
}

#[test]
fn abandoned_result_is_simply_dropped() {
    // A result whose tracked entry was never added is nobody's concern: the
    // tracker only answers for what it tracks.
    let mut tracker = HistoryTracker::new();
    let (tx, rx) = crossbeam::channel::bounded::<Vec<(u32, bool)>>(1);
    tx.send(vec![(1, true)]).unwrap();
    drop(rx);
    let out = tracker.check();
    assert!(out.is_empty());
    assert_eq!(tracker.outstanding(), 0);
}
