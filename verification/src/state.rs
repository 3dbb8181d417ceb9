use vstd::prelude::*;

use crate::device::Device;

verus! {

/// The state an association list records for a device: the value of the
/// first entry whose device matches, if any.
pub open spec fn state_of(entries: Seq<(Device, bool)>, d: Device) -> Option<bool>
    decreases entries.len(),
{
    if entries.len() == 0 {
        None
    } else if entries[0].0 == d {
        Some(entries[0].1)
    } else {
        state_of(entries.skip(1), d)
    }
}

/// Records `on` for device `d`: replaces the first entry for `d`, or appends
/// a new entry when the device is not yet present.
pub open spec fn set_state(entries: Seq<(Device, bool)>, d: Device, on: bool) -> Seq<
    (Device, bool),
>
    decreases entries.len(),
{
    if entries.len() == 0 {
        seq![(d, on)]
    } else if entries[0].0 == d {
        seq![(d, on)] + entries.skip(1)
    } else {
        seq![entries[0]] + set_state(entries.skip(1), d, on)
    }
}

/// No two entries name the same device.
pub open spec fn distinct_devices(entries: Seq<(Device, bool)>) -> bool {
    forall|i: int, j: int| 0 <= i < j < entries.len() ==> entries[i].0 != entries[j].0
}

/// Updating one device is invisible to lookups of every other device, and the
/// updated device reads back the written state.
pub proof fn lemma_state_of_set(entries: Seq<(Device, bool)>, d: Device, on: bool, q: Device)
    ensures
        state_of(set_state(entries, d, on), q) == if q == d {
            Some(on)
        } else {
            state_of(entries, q)
        },
    decreases entries.len(),
{
    let r = set_state(entries, d, on);
    if entries.len() == 0 {
        assert(r == seq![(d, on)]);
        assert(r[0] == (d, on));
        if q == d {
            assert(state_of(r, q) == Some(on));
        } else {
            assert(state_of(r, q) == state_of(r.skip(1), q));
            assert(r.skip(1).len() == 0);
        }
    } else if entries[0].0 == d {
        assert(r == seq![(d, on)] + entries.skip(1));
        assert(r[0] == (d, on));
        assert(r.skip(1) =~= entries.skip(1));
        if q == d {
            assert(state_of(r, q) == Some(on));
        } else {
            assert(state_of(r, q) == state_of(entries.skip(1), q));
            assert(state_of(entries, q) == state_of(entries.skip(1), q));
        }
    } else {
        lemma_state_of_set(entries.skip(1), d, on, q);
        assert(r == seq![entries[0]] + set_state(entries.skip(1), d, on));
        assert(r[0] == entries[0]);
        assert(r.skip(1) =~= set_state(entries.skip(1), d, on));
        if q == entries[0].0 {
            assert(state_of(r, q) == Some(r[0].1));
            assert(state_of(entries, q) == Some(entries[0].1));
        } else {
            assert(state_of(r, q) == state_of(r.skip(1), q));
            assert(state_of(entries, q) == state_of(entries.skip(1), q));
        }
    }
}

/// A device no entry names is absent from lookup.
pub proof fn lemma_state_of_absent(entries: Seq<(Device, bool)>, d: Device)
    requires
        forall|i: int| 0 <= i < entries.len() ==> entries[i].0 != d,
    ensures
        state_of(entries, d) is None,
    decreases entries.len(),
{
    if entries.len() > 0 {
        lemma_state_of_absent(entries.skip(1), d);
    }
}

/// When the first occurrence of `d` stands at index `i`, lookup returns it.
pub proof fn lemma_state_of_at(entries: Seq<(Device, bool)>, d: Device, i: int)
    requires
        0 <= i < entries.len(),
        entries[i].0 == d,
        forall|j: int| 0 <= j < i ==> entries[j].0 != d,
    ensures
        state_of(entries, d) == Some(entries[i].1),
    decreases i,
{
    if i > 0 {
        lemma_state_of_at(entries.skip(1), d, i - 1);
    }
}

/// When the first occurrence of `d` stands at index `i`, setting `d` updates
/// that index in place.
pub proof fn lemma_set_state_at(entries: Seq<(Device, bool)>, d: Device, on: bool, i: int)
    requires
        0 <= i < entries.len(),
        entries[i].0 == d,
        forall|j: int| 0 <= j < i ==> entries[j].0 != d,
    ensures
        set_state(entries, d, on) == entries.update(i, (d, on)),
    decreases i,
{
    if i == 0 {
        assert(set_state(entries, d, on) =~= entries.update(0, (d, on)));
    } else {
        lemma_set_state_at(entries.skip(1), d, on, i - 1);
        assert(seq![entries[0]] + entries.skip(1).update(i - 1, (d, on)) =~= entries.update(
            i,
            (d, on),
        ));
    }
}

/// When no entry names `d`, setting `d` appends a new entry.
pub proof fn lemma_set_state_append(entries: Seq<(Device, bool)>, d: Device, on: bool)
    requires
        forall|i: int| 0 <= i < entries.len() ==> entries[i].0 != d,
    ensures
        set_state(entries, d, on) == entries.push((d, on)),
    decreases entries.len(),
{
    if entries.len() == 0 {
        assert(set_state(entries, d, on) =~= entries.push((d, on)));
    } else {
        lemma_set_state_append(entries.skip(1), d, on);
        assert(seq![entries[0]] + entries.skip(1).push((d, on)) =~= entries.push((d, on)));
    }
}

/// A mapping from devices to their boolean on/off state, produced atomically
/// by one gateway read or held as the reconciliation loop's last-known cache.
#[derive(Clone, Debug)]
pub struct StateSnapshot {
    pub entries: Vec<(Device, bool)>,
}

impl View for StateSnapshot {
    type V = Seq<(Device, bool)>;

    open spec fn view(&self) -> Seq<(Device, bool)> {
        self.entries@
    }
}

impl StateSnapshot {
    /// A snapshot that records no device at all.
    pub fn new() -> (snap: StateSnapshot)
        ensures
            snap@ == Seq::<(Device, bool)>::empty(),
    {
        StateSnapshot { entries: Vec::new() }
    }

    /// The recorded state of `d`, or `None` when the snapshot does not know it.
    pub fn get(&self, d: Device) -> (r: Option<bool>)
        ensures
            r == state_of(self@, d),
    {
        let mut i: usize = 0;
        while i < self.entries.len()
            invariant
                i <= self.entries.len(),
                forall|j: int| 0 <= j < i ==> self.entries@[j].0 != d,
            decreases self.entries.len() - i,
        {
            let (dev, on) = self.entries[i];
            if dev == d {
                proof {
                    lemma_state_of_at(self@, d, i as int);
                }
                return Some(on);
            }
            i += 1;
        }
        proof {
            lemma_state_of_absent(self@, d);
        }
        None
    }

    /// Records `on` for `d`, replacing the previous entry for `d` if any.
    pub fn set(&mut self, d: Device, on: bool)
        ensures
            final(self)@ == set_state(old(self)@, d, on),
    {
        let mut i: usize = 0;
        while i < self.entries.len()
            invariant
                i <= self.entries.len(),
                self@ == old(self)@,
                forall|j: int| 0 <= j < i ==> self.entries@[j].0 != d,
            decreases self.entries.len() - i,
        {
            let (dev, _) = self.entries[i];
            if dev == d {
                self.entries[i] = (d, on);
                proof {
                    lemma_set_state_at(old(self)@, d, on, i as int);
                }
                return ;
            }
            i += 1;
        }
        self.entries.push((d, on));
        proof {
            lemma_set_state_append(old(self)@, d, on);
        }
    }

    /// How many devices the snapshot records.
    pub fn len(&self) -> (n: usize)
        ensures
            n == self@.len(),
    {
        self.entries.len()
    }
}

} // verus!
