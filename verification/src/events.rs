use vstd::prelude::*;

use crate::device::Light;

verus! {

/// Authoritative or optimistic notification that a light's state changed:
/// emitted by the reconciliation loop when a poll shows a difference, and
/// re-raised immediately for a manual change. All listeners update their
/// presentation state from this one notification.
#[derive(Clone, Copy, PartialEq, Eq, Structural, Debug)]
pub struct ServerLightStateChange {
    pub light: Light,
    pub on: bool,
}

/// Inbound notification from a user-facing control: the user asked to switch
/// a light to `on`.
#[derive(Clone, Copy, PartialEq, Eq, Structural, Debug)]
pub struct ManualLightStateChange {
    pub light: Light,
    pub on: bool,
}

/// Inbound notification from a presentation surface: fetch the full history
/// of one light.
#[derive(Clone, Copy, PartialEq, Eq, Structural, Debug)]
pub struct LightHistoryRequest {
    pub light: Light,
}

/// Completion notification for one history request: the light's ordered
/// (minute-of-day, state) transitions, as the gateway returned them.
#[derive(Clone, Debug)]
pub struct LightHistory {
    pub light: Light,
    pub history: Vec<(u32, bool)>,
}

} // verus!
