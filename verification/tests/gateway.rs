use device_sync::{Device, Gateway, Light, Schedule};

fn single_light_gateway(changes: Vec<(u32, bool)>) -> Gateway {
    let schedule = Schedule::new(Device::Light(Light::Kitchen), changes)
        .expect("schedule should be accepted");
    Gateway::new(vec![schedule]).expect("gateway should be accepted")
}

#[test]
fn schedule_lookup_mid_interval() {
    let gateway = single_light_gateway(vec![(300, true), (420, false)]);
    let snap = gateway.get_current_state(350);
    assert_eq!(snap.get(Device::Light(Light::Kitchen)), Some(true));
}

#[test]
fn schedule_lookup_before_first_entry_wraps_to_last() {
    let gateway = single_light_gateway(vec![(300, true), (420, false)]);
    let snap = gateway.get_current_state(100);
    assert_eq!(snap.get(Device::Light(Light::Kitchen)), Some(false));
}

#[test]
fn schedule_lookup_boundary_is_strictly_before() {
    let gateway = single_light_gateway(vec![(300, true), (420, false)]);
    // A transition point takes effect only strictly after its own minute.
    let at_point = gateway.get_current_state(420);
    assert_eq!(at_point.get(Device::Light(Light::Kitchen)), Some(true));
    let after_point = gateway.get_current_state(421);
    assert_eq!(after_point.get(Device::Light(Light::Kitchen)), Some(false));
    let at_first = gateway.get_current_state(300);
    assert_eq!(at_first.get(Device::Light(Light::Kitchen)), Some(false));
    let after_first = gateway.get_current_state(301);
    assert_eq!(after_first.get(Device::Light(Light::Kitchen)), Some(true));
}

#[test]
fn schedule_new_rejects_empty() {
    assert!(Schedule::new(Device::Light(Light::Hall), vec![]).is_none());
}

#[test]
fn schedule_new_rejects_unordered_times() {
    assert!(Schedule::new(Device::Light(Light::Hall), vec![(400, true), (300, false)]).is_none());
    assert!(Schedule::new(Device::Light(Light::Hall), vec![(300, true), (300, false)]).is_none());
}

#[test]
fn gateway_new_rejects_duplicate_device() {
    let a = Schedule::new(Device::Light(Light::Hall), vec![(300, true)]).unwrap();
    let b = Schedule::new(Device::Light(Light::Hall), vec![(400, false)]).unwrap();
    assert!(Gateway::new(vec![a, b]).is_none());
}

#[test]
fn typical_day_snapshot_values() {
    let gateway = Gateway::typical_day();
    let snap = gateway.get_current_state(360);
    // Kitchen turned on at 330 and stays on until 420.
    assert_eq!(snap.get(Device::Light(Light::Kitchen)), Some(true));
    // Hall has no transition before 360: its last entry (1050, off) applies.
    assert_eq!(snap.get(Device::Light(Light::Hall)), Some(false));
    // Toilets are never scheduled.
    assert_eq!(snap.get(Device::Light(Light::Toilets)), None);
    assert_eq!(snap.len(), 9);
}

#[test]
fn get_history_returns_schedule_verbatim() {
    let gateway = Gateway::typical_day();
    let history = gateway.get_history(Device::Light(Light::Kitchen));
    assert_eq!(
        history,
        vec![
            (330, true),
            (420, false),
            (1025, true),
            (1055, false),
            (1140, true),
            (1260, false),
        ]
    );
}

#[test]
fn get_history_unknown_device_is_empty() {
    let gateway = Gateway::typical_day();
    assert!(gateway.get_history(Device::Light(Light::Toilets)).is_empty());
}
