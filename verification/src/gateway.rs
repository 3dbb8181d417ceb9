use vstd::prelude::*;

use crate::device::{Device, Light};
use crate::state::{distinct_devices, StateSnapshot};

verus! {

/// The last transition point of `changes` whose time lies strictly before
/// `t`, scanning positionally: the state of the latest such point, if any.
pub open spec fn prior_state(changes: Seq<(u32, bool)>, t: u32) -> Option<bool>
    decreases changes.len(),
{
    if changes.len() == 0 {
        None
    } else if changes.last().0 < t {
        Some(changes.last().1)
    } else {
        prior_state(changes.drop_last(), t)
    }
}

/// The state a daily schedule implies at minute `t`: the state of the last
/// transition point whose time is strictly less than `t`; when no point lies
/// before `t`, the state of the schedule's final entry, modeling wraparound
/// from the previous day.
pub open spec fn state_at(changes: Seq<(u32, bool)>, t: u32) -> bool
    recommends
        changes.len() > 0,
{
    match prior_state(changes, t) {
        Some(s) => s,
        None => changes.last().1,
    }
}

/// One device's fixed daily schedule: its ordered list of
/// (minute-of-day, state) transition points.
#[derive(Clone, Debug)]
pub struct Schedule {
    pub device: Device,
    pub changes: Vec<(u32, bool)>,
}

impl Schedule {
    /// Valid: at least one transition point, times strictly increasing.
    pub open spec fn wf(self) -> bool {
        &&& self.changes@.len() > 0
        &&& forall|i: int|
            0 <= i && i + 1 < self.changes@.len() ==> (#[trigger] self.changes@[i]).0
                < self.changes@[i + 1].0
    }

    /// Builds a schedule for `device`, accepting exactly the transition lists
    /// that are nonempty with strictly increasing times.
    pub fn new(device: Device, changes: Vec<(u32, bool)>) -> (r: Option<Schedule>)
        ensures
            r is Some <==> (Schedule { device, changes }).wf(),
            r matches Some(s) ==> s == (Schedule { device, changes }),
    {
        if changes.len() == 0 {
            return None;
        }
        if !times_increasing(&changes) {
            return None;
        }
        Some(Schedule { device, changes })
    }
}

/// Whether adjacent transition times are strictly increasing.
fn times_increasing(changes: &Vec<(u32, bool)>) -> (b: bool)
    ensures
        b == (forall|i: int|
            0 <= i && i + 1 < changes@.len() ==> (#[trigger] changes@[i]).0 < changes@[i + 1].0),
{
    let mut i: usize = 1;
    while i < changes.len()
        invariant
            1 <= i,
            forall|j: int| 0 <= j && j + 1 < i ==> (#[trigger] changes@[j]).0 < changes@[j + 1].0,
        decreases changes.len() - i,
    {
        if changes[i - 1].0 >= changes[i].0 {
            proof {
                assert(!(changes@[i - 1].0 < changes@[i as int].0));
            }
            return false;
        }
        i += 1;
    }
    true
}

/// The state `changes` implies at minute `t`: scans from the latest
/// transition point backwards for the first one strictly before `t`.
fn lookup_state(changes: &Vec<(u32, bool)>, t: u32) -> (s: bool)
    requires
        changes@.len() > 0,
    ensures
        s == state_at(changes@, t),
{
    proof {
        assert(changes@.take(changes@.len() as int) =~= changes@);
    }
    let mut i: usize = changes.len();
    while i > 0
        invariant
            i <= changes.len(),
            prior_state(changes@, t) == prior_state(changes@.take(i as int), t),
        decreases i,
    {
        let (time, st) = changes[i - 1];
        proof {
            assert(changes@.take(i as int).last() == changes@[i - 1]);
            assert(changes@.take(i as int).drop_last() =~= changes@.take(i - 1));
        }
        if time < t {
            return st;
        }
        i -= 1;
    }
    let (_, last_state) = changes[changes.len() - 1];
    last_state
}

/// The transition list recorded for `d`: the first schedule naming `d`.
pub open spec fn changes_of(schedules: Seq<Schedule>, d: Device) -> Option<Seq<(u32, bool)>>
    decreases schedules.len(),
{
    if schedules.len() == 0 {
        None
    } else if schedules[0].device == d {
        Some(schedules[0].changes@)
    } else {
        changes_of(schedules.skip(1), d)
    }
}

/// When the first schedule for `d` stands at index `i`, it is the one found.
pub proof fn lemma_changes_of_at(schedules: Seq<Schedule>, d: Device, i: int)
    requires
        0 <= i < schedules.len(),
        schedules[i].device == d,
        forall|j: int| 0 <= j < i ==> schedules[j].device != d,
    ensures
        changes_of(schedules, d) == Some(schedules[i].changes@),
    decreases i,
{
    if i > 0 {
        lemma_changes_of_at(schedules.skip(1), d, i - 1);
    }
}

/// A device no schedule names has no transition list.
pub proof fn lemma_changes_of_absent(schedules: Seq<Schedule>, d: Device)
    requires
        forall|i: int| 0 <= i < schedules.len() ==> schedules[i].device != d,
    ensures
        changes_of(schedules, d) is None,
    decreases schedules.len(),
{
    if schedules.len() > 0 {
        lemma_changes_of_absent(schedules.skip(1), d);
    }
}

/// The snapshot one gateway read produces at minute `t`: every scheduled
/// device mapped to the state its schedule implies at `t`.
pub open spec fn all_states(schedules: Seq<Schedule>, t: u32) -> Seq<(Device, bool)> {
    schedules.map(|i: int, s: Schedule| (s.device, state_at(s.changes@, t)))
}

/// The fixed daily schedules of a typical day in the home, one entry per
/// scheduled light: (device, ordered transition points in minutes of day).
pub open spec fn typical_day_table() -> Seq<(Device, Seq<(u32, bool)>)> {
    seq![
        (
            Device::Light(Light::Kitchen),
            seq![
                (330u32, true),
                (420u32, false),
                (1025u32, true),
                (1055u32, false),
                (1140u32, true),
                (1260u32, false),
            ],
        ),
        (Device::Light(Light::Hall), seq![(1020u32, true), (1050u32, false)]),
        (
            Device::Light(Light::Hallway),
            seq![(320u32, true), (365u32, false), (1315u32, true), (1355u32, false)],
        ),
        (
            Device::Light(Light::Bedroom1),
            seq![(317u32, true), (360u32, false), (1320u32, true), (1425u32, false)],
        ),
        (
            Device::Light(Light::Bathroom1),
            seq![(325u32, true), (328u32, false), (1330u32, true), (1350u32, false)],
        ),
        (
            Device::Light(Light::Bedroom2),
            seq![(315u32, true), (363u32, false), (1320u32, true), (1435u32, false)],
        ),
        (
            Device::Light(Light::Bathroom2),
            seq![(315u32, true), (325u32, false), (1335u32, true), (1350u32, false)],
        ),
        (
            Device::Light(Light::LivingRoom1),
            seq![(360u32, true), (390u32, false), (1050u32, true), (1350u32, false)],
        ),
        (
            Device::Light(Light::LivingRoom2),
            seq![(360u32, true), (390u32, false), (1050u32, true), (1350u32, false)],
        ),
    ]
}

/// The simulated remote device controller: answers state reads from each
/// device's fixed daily schedule, deterministically and without hidden state.
#[derive(Clone, Debug)]
pub struct Gateway {
    pub schedules: Vec<Schedule>,
}

impl Gateway {
    /// Valid: every schedule is valid and no device is scheduled twice.
    pub open spec fn wf(self) -> bool {
        &&& forall|i: int| 0 <= i < self.schedules@.len() ==> self.schedules@[i].wf()
        &&& forall|i: int, j: int|
            0 <= i < j < self.schedules@.len() ==> self.schedules@[i].device
                != self.schedules@[j].device
    }

    /// Builds a gateway, accepting exactly the schedule lists in which every
    /// schedule is valid and no two schedules name the same device.
    pub fn new(schedules: Vec<Schedule>) -> (r: Option<Gateway>)
        ensures
            r is Some <==> (Gateway { schedules }).wf(),
            r matches Some(g) ==> g == (Gateway { schedules }),
    {
        let mut i: usize = 0;
        while i < schedules.len()
            invariant
                i <= schedules.len(),
                forall|k: int| 0 <= k < i ==> schedules@[k].wf(),
                forall|k: int, j: int|
                    0 <= k < j < i ==> schedules@[k].device != schedules@[j].device,
            decreases schedules.len() - i,
        {
            if schedules[i].changes.len() == 0 {
                return None;
            }
            if !times_increasing(&schedules[i].changes) {
                return None;
            }
            let mut j: usize = 0;
            while j < i
                invariant
                    j <= i < schedules.len(),
                    forall|k: int| 0 <= k < j ==> schedules@[k].device != schedules@[i as int].device,
                decreases i - j,
            {
                if schedules[j].device == schedules[i].device {
                    return None;
                }
                j += 1;
            }
            i += 1;
        }
        Some(Gateway { schedules })
    }

    /// Reads the authoritative state of every known device at minute
    /// `current_time`, as each device's schedule implies it: one entry per
    /// schedule, in schedule order, no device twice.
    pub fn get_current_state(&self, current_time: u32) -> (snap: StateSnapshot)
        requires
            self.wf(),
        ensures
            snap@ == all_states(self.schedules@, current_time),
            distinct_devices(snap@),
    {
        let mut entries: Vec<(Device, bool)> = Vec::new();
        let mut i: usize = 0;
        while i < self.schedules.len()
            invariant
                i <= self.schedules.len(),
                self.wf(),
                entries@ == all_states(self.schedules@.take(i as int), current_time),
            decreases self.schedules.len() - i,
        {
            let on = lookup_state(&self.schedules[i].changes, current_time);
            entries.push((self.schedules[i].device, on));
            proof {
                assert(entries@ =~= all_states(self.schedules@.take(i + 1 as int), current_time));
            }
            i += 1;
        }
        proof {
            assert(self.schedules@.take(self.schedules@.len() as int) =~= self.schedules@);
            assert forall|a: int, b: int| 0 <= a < b < all_states(self.schedules@, current_time).len()
                implies all_states(self.schedules@, current_time)[a].0 != all_states(
                self.schedules@,
                current_time,
            )[b].0 by {
                assert(all_states(self.schedules@, current_time)[a].0 == self.schedules@[a].device);
                assert(all_states(self.schedules@, current_time)[b].0 == self.schedules@[b].device);
            }
        }
        StateSnapshot { entries }
    }

    /// Accepts a state write for one device. The simulated controller keeps
    /// no writable state, so the call is accepted and discarded; a real
    /// controller would apply it.
    pub fn change_state(&self, _device: Device, _new_state: bool) {
    }

    /// The gateway serving the typical day's schedules, exactly as the table
    /// gives them.
    pub fn typical_day() -> (g: Gateway)
        ensures
            g.wf(),
            g.schedules@.len() == typical_day_table().len(),
            forall|i: int|
                0 <= i < g.schedules@.len() ==> (#[trigger] g.schedules@[i]).device
                    == typical_day_table()[i].0 && g.schedules@[i].changes@
                    == typical_day_table()[i].1,
    {
        let schedules: Vec<Schedule> = vec![
            Schedule {
                device: Device::Light(Light::Kitchen),
                changes: vec![
                    (330, true),
                    (420, false),
                    (1025, true),
                    (1055, false),
                    (1140, true),
                    (1260, false),
                ],
            },
            Schedule {
                device: Device::Light(Light::Hall),
                changes: vec![(1020, true), (1050, false)],
            },
            Schedule {
                device: Device::Light(Light::Hallway),
                changes: vec![(320, true), (365, false), (1315, true), (1355, false)],
            },
            Schedule {
                device: Device::Light(Light::Bedroom1),
                changes: vec![(317, true), (360, false), (1320, true), (1425, false)],
            },
            Schedule {
                device: Device::Light(Light::Bathroom1),
                changes: vec![(325, true), (328, false), (1330, true), (1350, false)],
            },
            Schedule {
                device: Device::Light(Light::Bedroom2),
                changes: vec![(315, true), (363, false), (1320, true), (1435, false)],
            },
            Schedule {
                device: Device::Light(Light::Bathroom2),
                changes: vec![(315, true), (325, false), (1335, true), (1350, false)],
            },
            Schedule {
                device: Device::Light(Light::LivingRoom1),
                changes: vec![(360, true), (390, false), (1050, true), (1350, false)],
            },
            Schedule {
                device: Device::Light(Light::LivingRoom2),
                changes: vec![(360, true), (390, false), (1050, true), (1350, false)],
            },
        ];
        let g = Gateway { schedules };
        proof {
            assert(g.schedules@[0].changes@ =~= typical_day_table()[0].1);
            assert(g.schedules@[1].changes@ =~= typical_day_table()[1].1);
            assert(g.schedules@[2].changes@ =~= typical_day_table()[2].1);
            assert(g.schedules@[3].changes@ =~= typical_day_table()[3].1);
            assert(g.schedules@[4].changes@ =~= typical_day_table()[4].1);
            assert(g.schedules@[5].changes@ =~= typical_day_table()[5].1);
            assert(g.schedules@[6].changes@ =~= typical_day_table()[6].1);
            assert(g.schedules@[7].changes@ =~= typical_day_table()[7].1);
            assert(g.schedules@[8].changes@ =~= typical_day_table()[8].1);
        }
        g
    }

    /// Reads one device's full list of scheduled transitions verbatim; an
    /// empty sequence when the device has no schedule entry.
    pub fn get_history(&self, device: Device) -> (h: Vec<(u32, bool)>)
        ensures
            h@ == match changes_of(self.schedules@, device) {
                Some(c) => c,
                None => Seq::<(u32, bool)>::empty(),
            },
    {
        let mut i: usize = 0;
        while i < self.schedules.len()
            invariant
                i <= self.schedules.len(),
                forall|j: int| 0 <= j < i ==> self.schedules@[j].device != device,
            decreases self.schedules.len() - i,
        {
            if self.schedules[i].device == device {
                proof {
                    lemma_changes_of_at(self.schedules@, device, i as int);
                }
                let src = &self.schedules[i].changes;
                let mut out: Vec<(u32, bool)> = Vec::new();
                let mut j: usize = 0;
                while j < src.len()
                    invariant
                        j <= src.len(),
                        out@ == src@.take(j as int),
                    decreases src.len() - j,
                {
                    out.push(src[j]);
                    proof {
                        assert(out@ =~= src@.take(j + 1 as int));
                    }
                    j += 1;
                }
                proof {
                    assert(src@.take(src@.len() as int) =~= src@);
                }
                return out;
            }
            i += 1;
        }
        proof {
            lemma_changes_of_absent(self.schedules@, device);
        }
        Vec::new()
    }
}

} // verus!
