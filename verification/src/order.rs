//! Operations in the order of their timestamps.
use vstd::prelude::*;

use crate::types::{CompressedCRDTOperation, NTP64};

verus! {

/// Whether no operation of `ops` is older than one that stands before it.
pub open spec fn in_time_order(ops: Seq<CompressedCRDTOperation>) -> bool {
    forall|i: int, j: int|
        0 <= i < j < ops.len() ==> (#[trigger] ops[i]).timestamp.0 <= (#[trigger] ops[j]).timestamp.0
}

/// The operations of `ops` that bear the timestamp `time`, as they stand in `ops`.
pub open spec fn at_time(ops: Seq<CompressedCRDTOperation>, time: NTP64) -> Seq<CompressedCRDTOperation>
    decreases ops.len(),
{
    if ops.len() == 0 {
        Seq::empty()
    } else if ops.last().timestamp == time {
        at_time(ops.drop_last(), time).push(ops.last())
    } else {
        at_time(ops.drop_last(), time)
    }
}

/// Whether `sorted` holds the operations of `ops` in time order, those of one time as they stand
/// in `ops`.
pub open spec fn is_stable_sort(
    ops: Seq<CompressedCRDTOperation>,
    sorted: Seq<CompressedCRDTOperation>,
) -> bool {
    &&& in_time_order(sorted)
    &&& forall|time: NTP64| #[trigger] at_time(sorted, time) == at_time(ops, time)
}

/// `ops`, which is in time order, with `op` put in behind all that is not newer.
pub open spec fn put_in(
    ops: Seq<CompressedCRDTOperation>,
    op: CompressedCRDTOperation,
) -> Seq<CompressedCRDTOperation>
    decreases ops.len(),
{
    if ops.len() == 0 || ops.last().timestamp.0 <= op.timestamp.0 {
        ops.push(op)
    } else {
        put_in(ops.drop_last(), op).push(ops.last())
    }
}

/// The operations of `ops` in time order, those of one time as they stand in `ops`.
pub open spec fn by_time(ops: Seq<CompressedCRDTOperation>) -> Seq<CompressedCRDTOperation>
    decreases ops.len(),
{
    if ops.len() == 0 {
        ops
    } else {
        put_in(by_time(ops.drop_last()), ops.last())
    }
}

proof fn at_time_push(ops: Seq<CompressedCRDTOperation>, op: CompressedCRDTOperation, time: NTP64)
    ensures
        at_time(ops.push(op), time) == if op.timestamp == time {
            at_time(ops, time).push(op)
        } else {
            at_time(ops, time)
        },
{
    assert(ops.push(op).drop_last() =~= ops);
}

proof fn at_time_concat(a: Seq<CompressedCRDTOperation>, b: Seq<CompressedCRDTOperation>, time: NTP64)
    ensures
        at_time(a + b, time) == at_time(a, time) + at_time(b, time),
    decreases b.len(),
{
    if b.len() == 0 {
        assert(a + b =~= a);
        assert(at_time(a, time) + at_time(b, time) =~= at_time(a, time));
    } else {
        assert((a + b).drop_last() =~= a + b.drop_last());
        at_time_concat(a, b.drop_last(), time);
        assert(at_time(a + b, time) =~= at_time(a, time) + at_time(b, time));
    }
}

/// `at_time` holds operations of that time only, and is empty exactly where there is none.
proof fn at_time_members(ops: Seq<CompressedCRDTOperation>, time: NTP64)
    ensures
        forall|i: int|
            0 <= i < at_time(ops, time).len() ==> (#[trigger] at_time(ops, time)[i]).timestamp == time,
        at_time(ops, time).len() == 0 <==> (forall|i: int|
            0 <= i < ops.len() ==> (#[trigger] ops[i]).timestamp != time),
    decreases ops.len(),
{
    if ops.len() > 0 {
        at_time_members(ops.drop_last(), time);
        if at_time(ops, time).len() == 0 {
            assert forall|i: int| 0 <= i < ops.len() implies (#[trigger] ops[i]).timestamp != time by {
                if i < ops.len() - 1 {
                    assert(ops.drop_last()[i] == ops[i]);
                }
            }
        }
        if forall|i: int| 0 <= i < ops.len() ==> (#[trigger] ops[i]).timestamp != time {
            assert forall|i: int| 0 <= i < ops.drop_last().len() implies (#[trigger] ops.drop_last()[i]).timestamp
                != time by {
                assert(ops.drop_last()[i] == ops[i]);
            }
            assert(ops.last() == ops[ops.len() - 1]);
        }
    }
}

/// Whether no operation of `ops` is newer than `time`.
pub open spec fn all_until(ops: Seq<CompressedCRDTOperation>, time: u64) -> bool {
    forall|i: int| 0 <= i < ops.len() ==> (#[trigger] ops[i]).timestamp.0 <= time
}

proof fn put_in_is_stable(ops: Seq<CompressedCRDTOperation>, op: CompressedCRDTOperation)
    requires
        in_time_order(ops),
    ensures
        is_stable_sort(ops.push(op), put_in(ops, op)),
        put_in(ops, op).len() == ops.len() + 1,
        forall|time: u64| all_until(ops.push(op), time) ==> #[trigger] all_until(put_in(ops, op), time),
    decreases ops.len(),
{
    let sorted = put_in(ops, op);
    if ops.len() == 0 || ops.last().timestamp.0 <= op.timestamp.0 {
        assert forall|i: int, j: int| 0 <= i < j < sorted.len() implies (#[trigger] sorted[i]).timestamp.0 <= (
        #[trigger] sorted[j]).timestamp.0 by {
            if j == ops.len() {
                assert(ops[i].timestamp.0 <= ops.last().timestamp.0);
            }
        }
    } else {
        let init = ops.drop_last();
        let last = ops.last();
        put_in_is_stable(init, op);
        let inner = put_in(init, op);
        assert(all_until(init.push(op), last.timestamp.0)) by {
            assert forall|i: int| 0 <= i < init.push(op).len() implies (#[trigger] init.push(
                op,
            )[i]).timestamp.0 <= last.timestamp.0 by {
                if i < init.len() {
                    assert(ops[i].timestamp.0 <= ops[ops.len() - 1].timestamp.0);
                }
            }
        }
        assert(all_until(inner, last.timestamp.0));
        assert forall|i: int, j: int| 0 <= i < j < sorted.len() implies (#[trigger] sorted[i]).timestamp.0 <= (
        #[trigger] sorted[j]).timestamp.0 by {
            assert(inner[i].timestamp.0 <= last.timestamp.0);
            if j < inner.len() {
                assert(inner[i].timestamp.0 <= inner[j].timestamp.0);
            }
        }
        assert forall|time: NTP64| #[trigger] at_time(sorted, time) == at_time(ops.push(op), time) by {
            at_time_push(inner, last, time);
            at_time_push(init, op, time);
            at_time_push(ops, op, time);
            assert(at_time(inner, time) == at_time(init.push(op), time));
        }
        assert forall|time: u64| all_until(ops.push(op), time) implies #[trigger] all_until(sorted, time) by {
            assert(ops.push(op)[ops.len() - 1] == last);
            assert forall|i: int| 0 <= i < sorted.len() implies (#[trigger] sorted[i]).timestamp.0 <= time by {
                assert(i < inner.len() ==> inner[i].timestamp.0 <= last.timestamp.0);
            }
        }
    }
}

/// `by_time` is a stable sort, and keeps every operation.
pub proof fn by_time_is_a_stable_sort(ops: Seq<CompressedCRDTOperation>)
    ensures
        is_stable_sort(ops, by_time(ops)),
        by_time(ops).len() == ops.len(),
    decreases ops.len(),
{
    if ops.len() > 0 {
        let init = ops.drop_last();
        let last = ops.last();
        by_time_is_a_stable_sort(init);
        put_in_is_stable(by_time(init), last);
        assert(init.push(last) =~= ops);
        assert forall|time: NTP64| #[trigger] at_time(by_time(ops), time) == at_time(ops, time) by {
            at_time_push(by_time(init), last, time);
            at_time_push(init, last, time);
            assert(at_time(by_time(init), time) == at_time(init, time));
            assert(at_time(put_in(by_time(init), last), time) == at_time(by_time(init).push(last), time));
        }
    }
}

/// Only one sequence is the stable sort of `ops`.
pub proof fn stable_sort_is_unique(
    ops: Seq<CompressedCRDTOperation>,
    a: Seq<CompressedCRDTOperation>,
    b: Seq<CompressedCRDTOperation>,
)
    requires
        is_stable_sort(ops, a),
        is_stable_sort(ops, b),
    ensures
        a == b,
    decreases a.len(),
{
    if a.len() == 0 || b.len() == 0 {
        if a.len() > 0 {
            let time = a.last().timestamp;
            at_time_members(a, time);
            at_time_members(b, time);
            assert(a[a.len() - 1].timestamp == time);
            assert(at_time(a, time) == at_time(b, time));
        }
        if b.len() > 0 {
            let time = b.last().timestamp;
            at_time_members(a, time);
            at_time_members(b, time);
            assert(b[b.len() - 1].timestamp == time);
            assert(at_time(a, time) == at_time(b, time));
        }
        assert(a =~= b);
    } else {
        let x = a.last();
        let y = b.last();
        latest_times_agree(ops, a, b);
        latest_times_agree(ops, b, a);
        assert(x.timestamp == y.timestamp);
        assert(at_time(a, x.timestamp) == at_time(b, x.timestamp));
        assert(at_time(a, x.timestamp).last() == x);
        assert(at_time(b, x.timestamp).last() == y);
        let rest = a.drop_last();
        assert forall|time: NTP64| #[trigger] at_time(b.drop_last(), time) == at_time(rest, time) by {
            assert(at_time(a, time) == at_time(b, time));
            assert(at_time(a.drop_last(), time).push(x).drop_last() =~= at_time(a.drop_last(), time));
            assert(at_time(b.drop_last(), time).push(x).drop_last() =~= at_time(b.drop_last(), time));
        }
        assert(in_time_order(rest));
        assert(in_time_order(b.drop_last()));
        stable_sort_is_unique(rest, rest, b.drop_last());
        assert(a =~= rest.push(x));
        assert(b =~= b.drop_last().push(y));
    }
}

proof fn latest_times_agree(
    ops: Seq<CompressedCRDTOperation>,
    a: Seq<CompressedCRDTOperation>,
    b: Seq<CompressedCRDTOperation>,
)
    requires
        is_stable_sort(ops, a),
        is_stable_sort(ops, b),
        a.len() > 0,
        b.len() > 0,
    ensures
        a.last().timestamp.0 <= b.last().timestamp.0,
{
    let time = a.last().timestamp;
    at_time_members(a, time);
    at_time_members(b, time);
    assert(a[a.len() - 1].timestamp == time);
    assert(at_time(a, time) == at_time(b, time));
    let i = choose|i: int| 0 <= i < b.len() && (#[trigger] b[i]).timestamp == time;
    assert(b[i].timestamp.0 <= b[b.len() - 1].timestamp.0);
}

/// The last of the operations in time order is the newest, and one of them.
pub proof fn last_by_time_is_newest(ops: Seq<CompressedCRDTOperation>)
    requires
        ops.len() > 0,
    ensures
        by_time(ops).len() == ops.len(),
        all_until(ops, by_time(ops).last().timestamp.0),
        exists|i: int| 0 <= i < ops.len() && #[trigger] ops[i] == by_time(ops).last(),
{
    by_time_is_a_stable_sort(ops);
    let sorted = by_time(ops);
    let last = sorted.last();
    assert forall|i: int| 0 <= i < ops.len() implies (#[trigger] ops[i]).timestamp.0 <= last.timestamp.0 by {
        let time = ops[i].timestamp;
        at_time_members(ops, time);
        at_time_members(sorted, time);
        assert(at_time(sorted, time) == at_time(ops, time));
        let k = choose|k: int| 0 <= k < sorted.len() && (#[trigger] sorted[k]).timestamp == time;
        assert(sorted[k].timestamp.0 <= sorted[sorted.len() - 1].timestamp.0);
    }
    assert(at_time(sorted, last.timestamp).last() == last);
    assert(at_time(sorted, last.timestamp) == at_time(ops, last.timestamp));
    at_time_picks(ops, last.timestamp, at_time(ops, last.timestamp).len() - 1);
}

proof fn at_time_picks(ops: Seq<CompressedCRDTOperation>, time: NTP64, k: int)
    requires
        0 <= k < at_time(ops, time).len(),
    ensures
        exists|i: int| 0 <= i < ops.len() && #[trigger] ops[i] == at_time(ops, time)[k],
    decreases ops.len(),
{
    let init = ops.drop_last();
    if k < at_time(init, time).len() {
        at_time_picks(init, time, k);
        let i = choose|i: int| 0 <= i < init.len() && #[trigger] init[i] == at_time(init, time)[k];
        assert(ops[i] == at_time(ops, time)[k]);
    } else {
        assert(ops[ops.len() - 1] == at_time(ops, time)[k]);
    }
}

/// Operations of different times may arrive in any order.
pub proof fn arrival_order_is_irrelevant(
    a: Seq<CompressedCRDTOperation>,
    b: Seq<CompressedCRDTOperation>,
)
    requires
        a.to_multiset() == b.to_multiset(),
        forall|i: int, j: int|
            0 <= i < j < a.len() ==> (#[trigger] a[i]).timestamp != (#[trigger] a[j]).timestamp,
    ensures
        by_time(a) == by_time(b),
{
    assert forall|time: NTP64| #[trigger] at_time(b, time) == at_time(a, time) by {
        at_time_counts(a, time);
        at_time_counts(b, time);
        at_most_one_of_a_time(a, time);
        let x = at_time(a, time);
        let y = at_time(b, time);
        assert(x.to_multiset() =~= y.to_multiset());
        x.to_multiset_ensures();
        y.to_multiset_ensures();
        if x.len() == 1 {
            assert(x.contains(x[0]));
            assert(x.to_multiset().count(x[0]) > 0);
            assert(y.contains(x[0]));
        }
        assert(x =~= y);
    }
    by_time_is_a_stable_sort(a);
    by_time_is_a_stable_sort(b);
    assert forall|time: NTP64| #[trigger] at_time(by_time(b), time) == at_time(a, time) by {
        assert(at_time(by_time(b), time) == at_time(b, time));
    }
    stable_sort_is_unique(a, by_time(a), by_time(b));
}

proof fn at_time_counts(ops: Seq<CompressedCRDTOperation>, time: NTP64)
    ensures
        forall|op: CompressedCRDTOperation|
            #[trigger] at_time(ops, time).to_multiset().count(op) == if op.timestamp == time {
                ops.to_multiset().count(op)
            } else {
                0
            },
    decreases ops.len(),
{
    broadcast use vstd::seq_lib::group_to_multiset_ensures;

    if ops.len() > 0 {
        let init = ops.drop_last();
        at_time_counts(init, time);
        let last = ops.last();
        assert(ops =~= init.push(last));
        assert(ops.to_multiset() =~= init.to_multiset().insert(last));
        if last.timestamp == time {
            assert(at_time(ops, time).to_multiset() =~= at_time(init, time).to_multiset().insert(last));
        }
        assert forall|op: CompressedCRDTOperation|
            #[trigger] at_time(ops, time).to_multiset().count(op) == if op.timestamp == time {
                ops.to_multiset().count(op)
            } else {
                0
            } by {
            let _ = at_time(init, time).to_multiset().count(op);
            let _ = init.to_multiset().count(op);
        }
    } else {
        assert(ops.to_multiset() =~= vstd::multiset::Multiset::empty());
        assert(at_time(ops, time).to_multiset() =~= vstd::multiset::Multiset::empty());
    }
}

proof fn at_most_one_of_a_time(ops: Seq<CompressedCRDTOperation>, time: NTP64)
    requires
        forall|i: int, j: int|
            0 <= i < j < ops.len() ==> (#[trigger] ops[i]).timestamp != (#[trigger] ops[j]).timestamp,
    ensures
        at_time(ops, time).len() <= 1,
    decreases ops.len(),
{
    if ops.len() > 0 {
        let init = ops.drop_last();
        at_most_one_of_a_time(init, time);
        at_time_members(init, time);
        if ops.last().timestamp == time {
            assert forall|i: int| 0 <= i < init.len() implies (#[trigger] init[i]).timestamp != time by {
                assert(ops[i].timestamp != ops[ops.len() - 1].timestamp);
            }
        }
    }
}

proof fn at_time_behind(
    op: CompressedCRDTOperation,
    tail: Seq<CompressedCRDTOperation>,
    time: NTP64,
)
    ensures
        at_time(seq![op] + tail, time) == if op.timestamp == time {
            seq![op] + at_time(tail, time)
        } else {
            at_time(tail, time)
        },
{
    at_time_concat(seq![op], tail, time);
    at_time_push(Seq::empty(), op, time);
    assert(Seq::<CompressedCRDTOperation>::empty().push(op) =~= seq![op]);
    assert(Seq::<CompressedCRDTOperation>::empty() + at_time(tail, time) =~= at_time(tail, time));
}

/// Moving the last of `right` to the front of `tail` leaves what there is of each time.
proof fn take_from_right(
    left: Seq<CompressedCRDTOperation>,
    right: Seq<CompressedCRDTOperation>,
    op: CompressedCRDTOperation,
    tail: Seq<CompressedCRDTOperation>,
    time: NTP64,
)
    ensures
        at_time(left, time) + at_time(right, time) + at_time(seq![op] + tail, time) == at_time(left, time)
            + at_time(right.push(op), time) + at_time(tail, time),
{
    at_time_behind(op, tail, time);
    at_time_push(right, op, time);
    assert(at_time(left, time) + at_time(right, time) + at_time(seq![op] + tail, time) =~= at_time(
        left,
        time,
    ) + at_time(right.push(op), time) + at_time(tail, time));
}

/// So does moving the last of `left`, where all of `right` is older.
proof fn take_from_left(
    left: Seq<CompressedCRDTOperation>,
    right: Seq<CompressedCRDTOperation>,
    op: CompressedCRDTOperation,
    tail: Seq<CompressedCRDTOperation>,
    time: NTP64,
)
    requires
        forall|i: int| 0 <= i < right.len() ==> (#[trigger] right[i]).timestamp.0 < op.timestamp.0,
    ensures
        at_time(left, time) + at_time(right, time) + at_time(seq![op] + tail, time) == at_time(
            left.push(op),
            time,
        ) + at_time(right, time) + at_time(tail, time),
{
    at_time_behind(op, tail, time);
    at_time_push(left, op, time);
    at_time_members(right, time);
    assert(at_time(left, time) + at_time(right, time) + at_time(seq![op] + tail, time) =~= at_time(
        left.push(op),
        time,
    ) + at_time(right, time) + at_time(tail, time));
}

/// Merges two sequences in time order; of one time, those of `left` come first.
fn merge(
    mut left: Vec<CompressedCRDTOperation>,
    mut right: Vec<CompressedCRDTOperation>,
) -> (res: Vec<CompressedCRDTOperation>)
    requires
        in_time_order(left@),
        in_time_order(right@),
    ensures
        is_stable_sort(left@ + right@, res@),
{
    let ghost all = left@ + right@;
    let mut backwards: Vec<CompressedCRDTOperation> = Vec::new();
    proof {
        assert forall|time: NTP64|
            #[trigger] at_time(all, time) == at_time(left@, time) + at_time(right@, time) + at_time(
                backwards@.reverse(),
                time,
            ) by {
            at_time_concat(left@, right@, time);
            assert(backwards@.reverse() =~= Seq::empty());
            assert(at_time(left@, time) + at_time(right@, time) + Seq::empty() =~= at_time(left@, time)
                + at_time(right@, time));
        }
    }
    while left.len() > 0 || right.len() > 0
        invariant
            in_time_order(left@),
            in_time_order(right@),
            in_time_order(backwards@.reverse()),
            forall|i: int, j: int|
                0 <= i < left@.len() && 0 <= j < backwards@.len() ==> (#[trigger] left@[i]).timestamp.0 <= (
                #[trigger] backwards@[j]).timestamp.0,
            forall|i: int, j: int|
                0 <= i < right@.len() && 0 <= j < backwards@.len() ==> (#[trigger] right@[i]).timestamp.0 <= (
                #[trigger] backwards@[j]).timestamp.0,
            forall|time: NTP64|
                #[trigger] at_time(all, time) == at_time(left@, time) + at_time(right@, time) + at_time(
                    backwards@.reverse(),
                    time,
                ),
        decreases left.len() + right.len(),
    {
        let ghost left_before = left@;
        let ghost right_before = right@;
        let ghost tail = backwards@.reverse();
        let from_right = if right.len() == 0 {
            false
        } else if left.len() == 0 {
            true
        } else {
            left[left.len() - 1].timestamp.0 <= right[right.len() - 1].timestamp.0
        };
        let taken = if from_right {
            right.pop()
        } else {
            left.pop()
        };
        if let Some(op) = taken {
            backwards.push(op);
            proof {
                assert(backwards@.reverse() =~= seq![op] + tail);
                if from_right {
                    assert(left@ == left_before);
                    assert(right_before =~= right@.push(op));
                    assert forall|i: int| 0 <= i < left@.len() implies (#[trigger] left@[i]).timestamp.0
                        <= op.timestamp.0 by {
                        assert(left@[i].timestamp.0 <= left@[left@.len() - 1].timestamp.0);
                    }
                } else {
                    assert(right@ == right_before);
                    assert(left_before =~= left@.push(op));
                    assert forall|i: int| 0 <= i < right@.len() implies (#[trigger] right@[i]).timestamp.0
                        < op.timestamp.0 by {
                        assert(right@[i].timestamp.0 <= right@[right@.len() - 1].timestamp.0);
                    }
                }
                assert(in_time_order(backwards@.reverse())) by {
                    let after = backwards@.reverse();
                    assert forall|i: int, j: int| 0 <= i < j < after.len() implies (
                    #[trigger] after[i]).timestamp.0 <= (#[trigger] after[j]).timestamp.0 by {
                        assert(after[j] == tail[j - 1]);
                        assert(tail[j - 1] == backwards@[backwards@.len() - 1 - j]);
                        if i > 0 {
                            assert(after[i] == tail[i - 1]);
                        }
                    }
                }
                assert forall|time: NTP64|
                    #[trigger] at_time(all, time) == at_time(left@, time) + at_time(right@, time) + at_time(
                        backwards@.reverse(),
                        time,
                    ) by {
                    assert(at_time(all, time) == at_time(left_before, time) + at_time(right_before, time)
                        + at_time(tail, time));
                    if from_right {
                        take_from_right(left@, right@, op, tail, time);
                    } else {
                        take_from_left(left@, right@, op, tail, time);
                    }
                }
            }
        }
    }
    let ghost sorted = backwards@.reverse();
    let mut res: Vec<CompressedCRDTOperation> = Vec::new();
    proof {
        assert(res@ =~= sorted.take(0));
        assert forall|time: NTP64| #[trigger] at_time(sorted, time) == at_time(all, time) by {
            assert(at_time(all, time) == at_time(left@, time) + at_time(right@, time) + at_time(sorted, time));
            assert(Seq::empty() + Seq::empty() + at_time(sorted, time) =~= at_time(sorted, time));
        }
    }
    while backwards.len() > 0
        invariant
            res@.len() + backwards@.len() == sorted.len(),
            res@ == sorted.take(res@.len() as int),
            backwards@.reverse() == sorted.skip(res@.len() as int),
        decreases backwards.len(),
    {
        let ghost before = backwards@;
        if let Some(op) = backwards.pop() {
            proof {
                assert(before.reverse()[0] == op);
                assert(sorted.skip(res@.len() as int)[0] == sorted[res@.len() as int]);
                assert(sorted.take((res@.len() + 1) as int) =~= sorted.take(res@.len() as int).push(op));
                assert(backwards@.reverse() =~= before.reverse().skip(1));
                assert(sorted.skip(res@.len() as int).skip(1) =~= sorted.skip((res@.len() + 1) as int));
            }
            res.push(op);
        }
    }
    proof {
        assert(res@ =~= sorted);
    }
    res
}

/// Puts `ops` in the order of their timestamps; those of one time stay as they stand.
pub fn sort_by_timestamp(ops: Vec<CompressedCRDTOperation>) -> (res: Vec<CompressedCRDTOperation>)
    ensures
        res@ == by_time(ops@),
        is_stable_sort(ops@, res@),
    decreases ops.len(),
{
    let ghost all = ops@;
    let mut left = ops;
    if left.len() <= 1 {
        proof {
            by_time_is_a_stable_sort(all);
            stable_sort_is_unique(all, all, by_time(all));
        }
        return left;
    }
    let middle = left.len() / 2;
    let right = left.split_off(middle);
    let ghost left_before = left@;
    let ghost right_before = right@;
    let left = sort_by_timestamp(left);
    let right = sort_by_timestamp(right);
    let res = merge(left, right);
    proof {
        assert(left_before + right_before =~= all);
        assert forall|time: NTP64| #[trigger] at_time(res@, time) == at_time(all, time) by {
            at_time_concat(left_before, right_before, time);
            at_time_concat(left@, right@, time);
            assert(at_time(res@, time) == at_time(left@ + right@, time));
            assert(at_time(left@, time) == at_time(left_before, time));
            assert(at_time(right@, time) == at_time(right_before, time));
        }
        by_time_is_a_stable_sort(all);
        stable_sort_is_unique(all, res@, by_time(all));
    }
    res
}

} // verus!
