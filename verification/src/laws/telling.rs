//! Laws of what is known of the devices, and of the clock.
use vstd::prelude::*;

use crate::clock::{clock_id, told};
use crate::outside::{last_time, max_delta, own_id, refusal_reason, reverse_bytes};
use crate::timestamps::{advanced, known, lists_timestamps, DeviceTimestamps};
use crate::types::{DevicePubId, NTP64};

verus! {

/// Of a device that reaches a time, the greater of that time and the one known so far is known
/// from then on; of every other device what was known before, or nothing.
pub proof fn devices_are_known_by_their_latest_time(
    before: DeviceTimestamps,
    after: DeviceTimestamps,
    device: DevicePubId,
    new: NTP64,
)
    requires
        after@ == advanced(before@, device, new),
    ensures
        after@.dom() == before@.dom().insert(device),
        after@[device].0 >= new.0,
        !before@.contains_key(device) ==> after@[device] == new,
        before@.contains_key(device) ==> after@[device].0 >= before@[device].0 && (after@[device] == new
            || after@[device] == before@[device]),
        forall|other: DevicePubId| other != device ==> #[trigger] after@[other] == before@[other],
{
    assert(after@.dom() =~= before@.dom().insert(device));
}

/// What is known of a device is its timestamp, where it has one.
pub proof fn known_timestamps_are_told(timestamps: DeviceTimestamps, device: DevicePubId, res: Option<NTP64>)
    requires
        res == known(timestamps@, device),
    ensures
        res is Some <==> timestamps@.contains_key(device),
        res is Some ==> res->0 == timestamps@[device],
{
}

/// A request names every device of which something is known, each once, with the time known of
/// it, and no other.
pub proof fn requests_name_each_device_once(timestamps: DeviceTimestamps, pairs: Seq<(DevicePubId, NTP64)>)
    requires
        lists_timestamps(pairs, timestamps@),
    ensures
        forall|device: DevicePubId, time: NTP64| #[trigger]
            pairs.contains((device, time)) <==> timestamps@.contains_key(device) && timestamps@[device] == time,
        forall|i: int, j: int|
            0 <= i < j < pairs.len() ==> (#[trigger] pairs[i]).0 != (#[trigger] pairs[j]).0,
        pairs.len() == timestamps@.dom().len(),
{
    let devices = pairs.map_values(|pair: (DevicePubId, NTP64)| pair.0);
    assert(devices.no_duplicates());
    assert forall|device: DevicePubId| #[trigger]
        timestamps@.dom().contains(device) <==> devices.to_set().contains(device) by {
        if timestamps@.contains_key(device) {
            let i = choose|i: int| 0 <= i < pairs.len() && pairs[i] == (device, timestamps@[device]);
            assert(devices[i] == device);
        }
        if devices.contains(device) {
            let i = choose|i: int| 0 <= i < devices.len() && devices[i] == device;
            assert(pairs[i].0 == device);
        }
    }
    assert(timestamps@.dom() =~= devices.to_set());
    devices.unique_seq_to_set();
}

/// The clock knows a device by the bytes of its UUID in the opposite order: eight bits that stand
/// `shift` bits up in the one stand as far down from the top in the other.
pub proof fn clock_ids_are_the_bytes_reversed(device: DevicePubId, shift: u128, opposite: u128)
    requires
        shift % 8 == 0,
        shift + opposite == 120,
    ensures
        (clock_id(device) >> shift) & 0xff == (device.uuid >> opposite) & 0xff,
{
    let x = device.uuid;
    assert((reverse_bytes(x) >> shift) & 0xff == (x >> opposite) & 0xff) by (bit_vector)
        requires
            shift % 8 == 0,
            shift <= 120,
            opposite <= 120,
            shift + opposite == 120,
    ;
}

/// A clock that is told of a time compares it with its own: one that is ahead of that by more than
/// the tolerated drift is refused, with the reason for this device, time and drift, and the clock
/// stays; any other is accepted, and the clock then stands at its own time where that is not less
/// than the others, else one past the greater of the time it was told and the one it stood at.
/// What it tolerates and what it is called do not change.
pub proof fn clocks_answer_by_their_own_time(
    before: uhlc::HLC,
    after: uhlc::HLC,
    device: DevicePubId,
    time: NTP64,
    refusal: Option<Seq<char>>,
)
    requires
        told(before, after, device, time, refusal),
    ensures
        max_delta(after) == max_delta(before),
        own_id(after) == own_id(before),
        exists|now: u64|
            {
                let reason = #[trigger] refusal_reason(clock_id(device), max_delta(before), time.0, now);
                let greatest = if time.0 >= last_time(before) {
                    time.0
                } else {
                    last_time(before)
                };
                &&& now % 16 == 0
                &&& time.0 > now + max_delta(before) ==> refusal == Some(reason) && last_time(after)
                    == last_time(before)
                &&& time.0 <= now + max_delta(before) ==> refusal is None && last_time(after) == if now
                    >= greatest {
                    now as int
                } else {
                    greatest + 1
                }
            },
{
}

} // verus!
