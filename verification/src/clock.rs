//! Telling the hybrid logical clock of the times that other devices have reached.
use vstd::prelude::*;

use crate::outside::{
    answered_at, build_clock, last_time, max_delta, own_id, refusal_in, refusal_reason, reverse_bytes,
    update_with_timestamp, uuid_to_u128_le,
};
use crate::types::{DevicePubId, NTP64};

verus! {

/// The identifier under which the clock knows `device`: its UUID read as a little-endian number.
pub open spec fn clock_id(device: DevicePubId) -> u128 {
    reverse_bytes(device.uuid)
}

/// Devices are told apart by their clock identifiers, and only the nil UUID gets the identifier
/// zero, which no clock has.
pub proof fn clock_ids_are_distinct(a: DevicePubId, b: DevicePubId)
    ensures
        clock_id(a) == clock_id(b) ==> a == b,
        clock_id(a) == 0 <==> a.uuid == 0,
{
    let x = a.uuid;
    let y = b.uuid;
    assert(reverse_bytes(x) == reverse_bytes(y) ==> x == y) by (bit_vector);
    assert(reverse_bytes(x) == 0 <==> x == 0) by (bit_vector);
}

/// Computes the identifier under which the clock knows `device`.
pub fn clock_id_of(device: DevicePubId) -> (res: u128)
    ensures
        res == clock_id(device),
        res == 0 <==> device.uuid == 0,
{
    proof {
        clock_ids_are_distinct(device, device);
    }
    uuid_to_u128_le(device.uuid)
}

/// Whether a clock can have turned from `before` to `after` on being told that `device` has
/// reached `time`, and have answered with `refusal`, if any.
pub open spec fn told(
    before: uhlc::HLC,
    after: uhlc::HLC,
    device: DevicePubId,
    time: NTP64,
    refusal: Option<Seq<char>>,
) -> bool {
    &&& max_delta(after) == max_delta(before)
    &&& own_id(after) == own_id(before)
    &&& exists|now: u64| #[trigger]
        answered_at(
            now,
            max_delta(before),
            last_time(before),
            last_time(after),
            time.0,
            refusal,
            refusal_reason(clock_id(device), max_delta(before), time.0, now),
        )
}

/// A clock never goes back. One that accepts a time moves on to that time at least, one that
/// refuses it stays where it is, and a time within the tolerated drift is never refused.
pub proof fn clocks_never_go_back(
    before: uhlc::HLC,
    after: uhlc::HLC,
    device: DevicePubId,
    time: NTP64,
    refusal: Option<Seq<char>>,
)
    requires
        told(before, after, device, time, refusal),
    ensures
        last_time(after) >= last_time(before),
        refusal is None ==> last_time(after) >= time.0,
        refusal is Some ==> last_time(after) == last_time(before),
        time.0 <= max_delta(before) ==> refusal is None,
{
}

/// A clock does not run ahead of what moves it: it ends up at most one past where it stood or one
/// past what it was told, or else at a time it has read, and those stay clear of the greatest.
pub proof fn clocks_keep_room(
    before: uhlc::HLC,
    after: uhlc::HLC,
    device: DevicePubId,
    time: NTP64,
    refusal: Option<Seq<char>>,
)
    requires
        told(before, after, device, time, refusal),
    ensures
        last_time(after) <= last_time(before) + 1 || last_time(after) <= time.0 + 1 || last_time(after)
            <= u64::MAX - 15,
        last_time(before) < u64::MAX - 1 && time.0 < u64::MAX - 1 ==> last_time(after) < u64::MAX,
{
}

/// The clock of `device`, which has not been told of any time yet.
pub fn new_clock(device: DevicePubId) -> (res: uhlc::HLC)
    requires
        device.uuid != 0,
    ensures
        last_time(res) == 0,
        own_id(res) == clock_id(device),
{
    build_clock(clock_id_of(device))
}

/// Tells `clock` that `device` has reached `time`. The clock refuses a time that is further
/// ahead of its own than it was made to tolerate; else it moves past that time.
pub fn update_clock(clock: &mut uhlc::HLC, device: DevicePubId, time: NTP64) -> (res: Result<(), String>)
    requires
        last_time(*old(clock)) < u64::MAX,
        device.uuid != 0,
        time.0 < u64::MAX,
    ensures
        told(*old(clock), *final(clock), device, time, refusal_in(res)),
        time.0 <= max_delta(*old(clock)) ==> res is Ok,
{
    let id: u128 = clock_id_of(device);
    update_with_timestamp(clock, time.0, id)
}

} // verus!
