//! How far the operations of each device have been ingested.
use vstd::prelude::*;
use std::collections::HashMap;

use crate::types::{DevicePubId, NTP64};

verus! {

/// The newest timestamp that is known of each device.
#[derive(Debug)]
pub struct DeviceTimestamps {
    latest: HashMap<u128, NTP64>,
}

impl View for DeviceTimestamps {
    type V = Map<DevicePubId, NTP64>;

    closed spec fn view(&self) -> Map<DevicePubId, NTP64> {
        Map::new(
            |device: DevicePubId| self.latest@.contains_key(device.uuid),
            |device: DevicePubId| self.latest@[device.uuid],
        )
    }
}

/// Whether `pairs` holds each device of `timestamps` once, with its timestamp, and no other.
pub open spec fn lists_timestamps(
    pairs: Seq<(DevicePubId, NTP64)>,
    timestamps: Map<DevicePubId, NTP64>,
) -> bool {
    &&& forall|i: int|
        0 <= i < pairs.len() ==> timestamps.contains_key((#[trigger] pairs[i]).0)
            && timestamps[pairs[i].0] == pairs[i].1
    &&& forall|device: DevicePubId| #[trigger]
        timestamps.contains_key(device) ==> pairs.contains((device, timestamps[device]))
    &&& forall|i: int, j: int|
        0 <= i < j < pairs.len() ==> (#[trigger] pairs[i]).0 != (#[trigger] pairs[j]).0
}

/// The later of the timestamp known so far, if any, and `new`.
pub open spec fn later(known: Option<NTP64>, new: NTP64) -> NTP64 {
    match known {
        Some(time) if time.0 > new.0 => time,
        _ => new,
    }
}

/// What is known of `device` in `timestamps`.
pub open spec fn known(timestamps: Map<DevicePubId, NTP64>, device: DevicePubId) -> Option<NTP64> {
    if timestamps.contains_key(device) {
        Some(timestamps[device])
    } else {
        None
    }
}

/// `timestamps` once `device` has been seen to reach `new`.
pub open spec fn advanced(
    timestamps: Map<DevicePubId, NTP64>,
    device: DevicePubId,
    new: NTP64,
) -> Map<DevicePubId, NTP64> {
    timestamps.insert(device, later(known(timestamps, device), new))
}

impl DeviceTimestamps {
    /// No device is known.
    pub fn new() -> (res: Self)
        ensures
            res@ == Map::<DevicePubId, NTP64>::empty(),
    {
        let res = DeviceTimestamps { latest: HashMap::new() };
        assert(res@ =~= Map::<DevicePubId, NTP64>::empty());
        res
    }

    /// The newest timestamp known of `device`, where there is one.
    pub fn get(&self, device: DevicePubId) -> (res: Option<NTP64>)
        ensures
            res == known(self@, device),
    {
        match self.latest.get(&device.uuid) {
            Some(time) => Some(*time),
            None => None,
        }
    }

    /// Takes note that `device` has reached `new`; what was known does not go back.
    pub fn advance(&mut self, device: DevicePubId, new: NTP64)
        ensures
            final(self)@ == advanced(old(self)@, device, new),
    {
        let time = match self.get(device) {
            Some(time) => if time.0 > new.0 {
                time
            } else {
                new
            },
            None => new,
        };
        let _ = self.latest.insert(device.uuid, time);
        assert(self@ =~= advanced(old(self)@, device, new));
    }

    /// Every known device with its timestamp, in no particular order.
    pub fn pairs(&self) -> (res: Vec<(DevicePubId, NTP64)>)
        ensures
            lists_timestamps(res@, self@),
    {
        let mut res: Vec<(DevicePubId, NTP64)> = Vec::new();
        let iter = self.latest.iter();
        let ghost entries = vstd::std_specs::iter::IteratorSpec::remaining(&iter);
        for pair in it: iter
            invariant
                it.seq() == entries,
                res@.len() == it.index(),
                forall|i: int|
                    0 <= i < res@.len() ==> (#[trigger] res@[i]).0.uuid == *entries[i].0 && res@[i].1
                        == *entries[i].1,
        {
            res.push((DevicePubId { uuid: *pair.0 }, *pair.1));
        }
        proof {
            assert forall|device: DevicePubId| #[trigger] self@.contains_key(device) implies res@.contains(
                (device, self@[device]),
            ) by {
                let entry = (&device.uuid, &self.latest@[device.uuid]);
                assert(entries.contains(entry));
                let i = choose|i: int| 0 <= i < entries.len() && entries[i] == entry;
                assert(res@[i] == (device, self@[device]));
            }
            assert forall|i: int| 0 <= i < res@.len() implies self@.contains_key((#[trigger] res@[i]).0)
                && self@[res@[i].0] == res@[i].1 by {
                assert(self.latest@.contains_key(*entries[i].0));
            }
            assert forall|i: int, j: int| 0 <= i < j < res@.len() implies (#[trigger] res@[i]).0 != (
            #[trigger] res@[j]).0 by {
                assert(self.latest@.contains_key(*entries[i].0));
                assert(self.latest@.contains_key(*entries[j].0));
                assert(entries[i] != entries[j]);
            }
        }
        res
    }
}

/// What is known of a device never goes back, and nothing else changes.
pub proof fn timestamps_never_go_back(
    timestamps: Map<DevicePubId, NTP64>,
    device: DevicePubId,
    new: NTP64,
    other: DevicePubId,
)
    ensures
        advanced(timestamps, device, new).contains_key(device),
        advanced(timestamps, device, new)[device].0 >= new.0,
        timestamps.contains_key(other) ==> advanced(timestamps, device, new).contains_key(other)
            && advanced(timestamps, device, new)[other].0 >= timestamps[other].0,
        other != device ==> known(advanced(timestamps, device, new), other) == known(timestamps, other),
{
}

/// In which order a device is seen to reach two timestamps makes no difference, and seeing it
/// reach the same one again changes nothing.
pub proof fn advancing_is_order_independent(
    timestamps: Map<DevicePubId, NTP64>,
    device: DevicePubId,
    other: DevicePubId,
    a: NTP64,
    b: NTP64,
)
    ensures
        advanced(advanced(timestamps, device, a), other, b) == advanced(
            advanced(timestamps, other, b),
            device,
            a,
        ),
        advanced(advanced(timestamps, device, a), device, a) == advanced(timestamps, device, a),
{
    assert(advanced(advanced(timestamps, device, a), other, b) =~= advanced(
        advanced(timestamps, other, b),
        device,
        a,
    ));
    assert(advanced(advanced(timestamps, device, a), device, a) =~= advanced(timestamps, device, a));
}

} // verus!
