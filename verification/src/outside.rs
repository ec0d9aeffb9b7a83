//! What the library has from other crates, and what it takes for granted about that.
use vstd::prelude::*;

verus! {

/// A MessagePack value. The library carries such values and never looks inside them.
#[verifier::external_type_specification]
#[verifier::external_body]
pub struct ExValue(rmpv::Value);

/// What `rmp_serde::to_vec` reports when a value cannot be encoded.
#[verifier::external_type_specification]
#[verifier::external_body]
pub struct ExEncodeError(rmp_serde::encode::Error);

/// The sending half of a tokio one-shot channel, carried to whoever sends on it.
#[verifier::external_type_specification]
#[verifier::external_body]
#[verifier::reject_recursive_types(T)]
pub struct ExOneshotSender<T>(tokio::sync::oneshot::Sender<T>);

/// A hybrid logical clock.
#[verifier::external_type_specification]
#[verifier::external_body]
pub struct ExHlc(uhlc::HLC);

/// `Clone` of `rmpv::Value`, which is derived: a copy of the value, the same in every part.
pub assume_specification[ <rmpv::Value as Clone>::clone ](value: &rmpv::Value) -> (res: rmpv::Value)
    ensures
        res == *value,
;

/// The bytes that `rmp_serde::to_vec` makes of `value`.
pub uninterp spec fn encoded_value(value: rmpv::Value) -> Seq<u8>;

/// Encodes `value` in MessagePack, with `rmp_serde::to_vec`. The bytes depend on the value alone.
/// Whether there is memory enough for them depends on the machine, so of when an error is
/// reported, and which, nothing is said.
#[verifier::external_body]
pub(crate) fn encode_value(value: &rmpv::Value) -> (res: Result<Vec<u8>, rmp_serde::encode::Error>)
    ensures
        res matches Ok(bytes) ==> bytes@ == encoded_value(*value),
{
    rmp_serde::to_vec(value)
}

/// `x` with its sixteen bytes in the opposite order.
pub open spec fn reverse_bytes(x: u128) -> u128 {
    ((x & 0xff) << 120u128)
        | (((x >> 8u128) & 0xff) << 112u128)
        | (((x >> 16u128) & 0xff) << 104u128)
        | (((x >> 24u128) & 0xff) << 96u128)
        | (((x >> 32u128) & 0xff) << 88u128)
        | (((x >> 40u128) & 0xff) << 80u128)
        | (((x >> 48u128) & 0xff) << 72u128)
        | (((x >> 56u128) & 0xff) << 64u128)
        | (((x >> 64u128) & 0xff) << 56u128)
        | (((x >> 72u128) & 0xff) << 48u128)
        | (((x >> 80u128) & 0xff) << 40u128)
        | (((x >> 88u128) & 0xff) << 32u128)
        | (((x >> 96u128) & 0xff) << 24u128)
        | (((x >> 104u128) & 0xff) << 16u128)
        | (((x >> 112u128) & 0xff) << 8u128)
        | (((x >> 120u128) & 0xff))
}

/// Reads the bytes of a UUID as a little-endian number, with `uuid::Uuid::to_u128_le`. The UUID
/// is given by its bytes read as a big-endian number, from which `uuid::Uuid::from_u128` makes it;
/// the result then has the same bytes in the opposite order.
#[verifier::external_body]
pub(crate) fn uuid_to_u128_le(uuid: u128) -> (res: u128)
    ensures
        res == reverse_bytes(uuid),
{
    uuid::Uuid::from_u128(uuid).to_u128_le()
}

/// The drift that `clock` was made to tolerate, as `uhlc::HLC::get_delta` reports it. It is set
/// when the clock is built and does not change.
pub uninterp spec fn max_delta(clock: uhlc::HLC) -> u64;

/// The latest time that `clock` has given out or been told of.
pub uninterp spec fn last_time(clock: uhlc::HLC) -> u64;

/// The identifier of `clock`, as `uhlc::HLC::get_id` reports it: its bytes read as a little-endian
/// number. It is set when the clock is built and does not change.
pub uninterp spec fn own_id(clock: uhlc::HLC) -> u128;

/// What `uhlc::HLC::update_with_timestamp` says when a clock that tolerates the drift `delta`
/// refuses, at its own time `now`, the time `time` of the clock `id`. The text gives both times as
/// finely as the platform that the program is built for tells time.
pub uninterp spec fn refusal_reason(id: u128, delta: u64, time: u64, now: u64) -> Seq<char>;

/// Whether `time` exceeds `now` by more than `delta`.
pub open spec fn too_far_ahead(time: u64, now: u64, delta: u64) -> bool {
    time - now > delta
}

/// Where a clock moves that stood at `last`, when it accepts `time` at its own time `now`: to
/// `now` where that is the greatest of the three, else one past the greatest.
pub open spec fn moved(last: u64, time: u64, now: u64) -> int {
    if now >= time && now >= last {
        now as int
    } else if time >= last {
        time + 1
    } else {
        last + 1
    }
}

/// Whether a clock that tolerates the drift `delta` can have moved from `before` to `after` on
/// being told of `time` at its own time `now`, and have answered with `refusal`, if any, `reason`
/// being what it says when it refuses. A clock reads its own time in steps of sixteen.
pub open spec fn answered_at(
    now: u64,
    delta: u64,
    before: u64,
    after: u64,
    time: u64,
    refusal: Option<Seq<char>>,
    reason: Seq<char>,
) -> bool {
    &&& now % 16 == 0
    &&& if too_far_ahead(time, now, delta) {
        refusal == Some(reason) && after == before
    } else {
        refusal is None && after == moved(before, time, now)
    }
}

/// The reason in `answer`, where it is a refusal.
pub open spec fn refusal_in(answer: Result<(), String>) -> Option<Seq<char>> {
    match answer {
        Ok(()) => None,
        Err(reason) => Some(reason@),
    }
}

/// Tells `clock` of the time `time` on the clock `id`, with `uhlc::HLC::update_with_timestamp`.
/// For the time `now` that the clock reads off its physical clock, of which nothing more is known
/// than that its low four bits are cleared: a `time` too far ahead of it is refused, with a reason that depends on `id`, `time`, `now` and
/// the tolerated drift, and the clock stays where it is; any other is accepted, and the clock
/// moves past it. The tolerated drift and the identifier stay. The clock counts one further than
/// a time it accepts or stands at, so the greatest is left out of both; and no clock has the
/// identifier zero.
#[verifier::external_body]
pub(crate) fn update_with_timestamp(clock: &mut uhlc::HLC, time: u64, id: u128) -> (res: Result<
    (),
    String,
>)
    requires
        last_time(*old(clock)) < u64::MAX,
        time < u64::MAX,
        id != 0,
    ensures
        max_delta(*final(clock)) == max_delta(*old(clock)),
        own_id(*final(clock)) == own_id(*old(clock)),
        exists|now: u64| #[trigger]
            answered_at(
                now,
                max_delta(*old(clock)),
                last_time(*old(clock)),
                last_time(*final(clock)),
                time,
                refusal_in(res),
                refusal_reason(id, max_delta(*old(clock)), time, now),
            ),
{
    let id = uhlc::ID::from(std::num::NonZeroU128::new(id).expect("Non zero id"));
    clock.update_with_timestamp(&uhlc::Timestamp::new(uhlc::NTP64(time), id))
}

/// Builds a clock with the identifier `id` on the time of day, with `uhlc::HLCBuilder::new`,
/// `with_id` and `build`. It has not been told of any time yet. The drift it tolerates can be set
/// in the environment, so nothing is said of it.
#[verifier::external_body]
pub(crate) fn build_clock(id: u128) -> (res: uhlc::HLC)
    requires
        id != 0,
    ensures
        last_time(res) == 0,
        own_id(res) == id,
{
    let id = uhlc::ID::from(std::num::NonZeroU128::new(id).expect("Non zero id"));
    uhlc::HLCBuilder::new().with_id(id).build()
}

} // verus!
