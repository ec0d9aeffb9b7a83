//! An ordered map from field names to values.
use vstd::prelude::*;
use vstd::utf8::{encode_utf8, encode_utf8_decode_utf8};

verus! {

/// Whether `a` stands before `b` in lexicographic order.
pub open spec fn bytes_before(a: Seq<u8>, b: Seq<u8>) -> bool
    decreases a.len(),
{
    if b.len() == 0 {
        false
    } else if a.len() == 0 {
        true
    } else if a[0] != b[0] {
        a[0] < b[0]
    } else {
        bytes_before(a.drop_first(), b.drop_first())
    }
}

/// Whether the name `a` stands before the name `b`: names are ordered by their UTF-8 bytes.
pub open spec fn name_before(a: Seq<char>, b: Seq<char>) -> bool {
    bytes_before(encode_utf8(a), encode_utf8(b))
}

/// Whether `names` lists the keys of `map`, each once and in order.
pub open spec fn is_listing<V>(names: Seq<Seq<char>>, map: Map<Seq<char>, V>) -> bool {
    &&& forall|i: int, j: int| 0 <= i < j < names.len() ==> name_before(#[trigger] names[i], #[trigger] names[j])
    &&& forall|name: Seq<char>| #[trigger] map.contains_key(name) <==> names.contains(name)
}

/// The keys of `map` in order, each once.
pub open spec fn listing<V>(map: Map<Seq<char>, V>) -> Seq<Seq<char>> {
    choose|names: Seq<Seq<char>>| is_listing(names, map)
}

proof fn bytes_before_irreflexive(a: Seq<u8>)
    ensures
        !bytes_before(a, a),
    decreases a.len(),
{
    if a.len() > 0 {
        bytes_before_irreflexive(a.drop_first());
    }
}

proof fn bytes_before_transitive(a: Seq<u8>, b: Seq<u8>, c: Seq<u8>)
    requires
        bytes_before(a, b),
        bytes_before(b, c),
    ensures
        bytes_before(a, c),
    decreases a.len(),
{
    if a.len() > 0 && a[0] == b[0] && b[0] == c[0] {
        bytes_before_transitive(a.drop_first(), b.drop_first(), c.drop_first());
    }
}

proof fn bytes_before_total(a: Seq<u8>, b: Seq<u8>)
    ensures
        bytes_before(a, b) || a == b || bytes_before(b, a),
    decreases a.len(),
{
    if a.len() > 0 && b.len() > 0 && a[0] == b[0] {
        bytes_before_total(a.drop_first(), b.drop_first());
        if a.drop_first() == b.drop_first() {
            assert(a =~= seq![a[0]] + a.drop_first());
            assert(b =~= seq![b[0]] + b.drop_first());
        }
    } else if a.len() == 0 && b.len() == 0 {
        assert(a =~= b);
    }
}

/// Names are strictly ordered: no name stands before itself, the order is transitive, and of
/// two different names one stands before the other.
pub proof fn names_are_strictly_ordered(a: Seq<char>, b: Seq<char>, c: Seq<char>)
    ensures
        !name_before(a, a),
        name_before(a, b) && name_before(b, c) ==> name_before(a, c),
        a != b ==> name_before(a, b) || name_before(b, a),
{
    bytes_before_irreflexive(encode_utf8(a));
    if name_before(a, b) && name_before(b, c) {
        bytes_before_transitive(encode_utf8(a), encode_utf8(b), encode_utf8(c));
    }
    bytes_before_total(encode_utf8(a), encode_utf8(b));
    encode_utf8_decode_utf8(a);
    encode_utf8_decode_utf8(b);
}

proof fn bytes_before_at(a: Seq<u8>, b: Seq<u8>, k: int)
    requires
        0 <= k <= a.len(),
        k < b.len(),
        a.take(k) == b.take(k),
        k == a.len() || a[k] < b[k],
    ensures
        bytes_before(a, b),
    decreases k,
{
    if k > 0 {
        assert(a[0] == a.take(k)[0]);
        assert(b[0] == b.take(k)[0]);
        let x = a.drop_first();
        let y = b.drop_first();
        assert(x.take(k - 1) =~= a.take(k).drop_first());
        assert(y.take(k - 1) =~= b.take(k).drop_first());
        bytes_before_at(x, y, k - 1);
    }
}

proof fn bytes_before_where(a: Seq<u8>, b: Seq<u8>) -> (k: int)
    requires
        bytes_before(a, b),
    ensures
        0 <= k <= a.len(),
        k < b.len(),
        a.take(k) == b.take(k),
        k == a.len() || a[k] < b[k],
    decreases a.len(),
{
    if a.len() > 0 && a[0] == b[0] {
        let x = a.drop_first();
        let y = b.drop_first();
        let k = bytes_before_where(x, y);
        assert(a.take(k + 1) =~= seq![a[0]] + x.take(k));
        assert(b.take(k + 1) =~= seq![b[0]] + y.take(k));
        k + 1
    } else {
        assert(a.take(0) =~= b.take(0));
        0
    }
}

/// Names are ordered by their UTF-8 bytes: one stands before another exactly where, behind a
/// common beginning, it ends or goes on with a smaller byte.
pub proof fn names_are_ordered_by_their_bytes(a: Seq<char>, b: Seq<char>)
    ensures
        name_before(a, b) <==> exists|k: int|
            0 <= k <= encode_utf8(a).len() && k < encode_utf8(b).len() && #[trigger] encode_utf8(a).take(k)
                == encode_utf8(b).take(k) && (k == encode_utf8(a).len() || encode_utf8(a)[k]
                < encode_utf8(b)[k]),
{
    let x = encode_utf8(a);
    let y = encode_utf8(b);
    if bytes_before(x, y) {
        let k = bytes_before_where(x, y);
        assert(x.take(k) == y.take(k));
    }
    if exists|k: int|
        0 <= k <= x.len() && k < y.len() && #[trigger] x.take(k) == y.take(k) && (k == x.len() || x[k] < y[k]) {
        let k = choose|k: int|
            0 <= k <= x.len() && k < y.len() && #[trigger] x.take(k) == y.take(k) && (k == x.len() || x[k]
                < y[k]);
        bytes_before_at(x, y, k);
    }
}

proof fn same_names_same_order(a: Seq<Seq<char>>, b: Seq<Seq<char>>)
    requires
        forall|i: int, j: int| 0 <= i < j < a.len() ==> name_before(#[trigger] a[i], #[trigger] a[j]),
        forall|i: int, j: int| 0 <= i < j < b.len() ==> name_before(#[trigger] b[i], #[trigger] b[j]),
        forall|name: Seq<char>| #[trigger] a.contains(name) <==> b.contains(name),
    ensures
        a == b,
    decreases a.len(),
{
    if a.len() == 0 || b.len() == 0 {
        if a.len() > 0 {
            assert(a.contains(a[0]));
        }
        if b.len() > 0 {
            assert(b.contains(b[0]));
            assert(a.contains(b[0]));
        }
        assert(a =~= b);
    } else {
        assert(a.contains(a[0]));
        assert(b.contains(b[0]));
        assert(a.contains(b[0]));
        let i = choose|i: int| 0 <= i < a.len() && a[i] == b[0];
        let j = choose|j: int| 0 <= j < b.len() && b[j] == a[0];
        names_are_strictly_ordered(a[0], b[0], a[0]);
        assert(a[0] == b[0]);
        let x = a.drop_first();
        let y = b.drop_first();
        assert forall|name: Seq<char>| #[trigger] x.contains(name) <==> y.contains(name) by {
            names_are_strictly_ordered(name, name, name);
            if x.contains(name) {
                let i = choose|i: int| 0 <= i < x.len() && x[i] == name;
                assert(a[i + 1] == name);
                assert(name_before(a[0], a[i + 1]));
                assert(a.contains(name));
                let j = choose|j: int| 0 <= j < b.len() && b[j] == name;
                assert(y[j - 1] == name);
            }
            if y.contains(name) {
                let i = choose|i: int| 0 <= i < y.len() && y[i] == name;
                assert(b[i + 1] == name);
                assert(name_before(b[0], b[i + 1]));
                assert(b.contains(name));
                assert(a.contains(name));
                let j = choose|j: int| 0 <= j < a.len() && a[j] == name;
                assert(x[j - 1] == name);
            }
        }
        same_names_same_order(x, y);
        assert(a =~= seq![a[0]] + x);
        assert(b =~= seq![b[0]] + y);
    }
}

/// A map has one listing at most.
pub proof fn listing_is_unique<V>(names: Seq<Seq<char>>, map: Map<Seq<char>, V>)
    requires
        is_listing(names, map),
    ensures
        names == listing(map),
{
    let other = listing(map);
    assert(is_listing(other, map));
    assert forall|name: Seq<char>| #[trigger] names.contains(name) <==> other.contains(name) by {
        assert(map.contains_key(name) <==> names.contains(name));
        assert(map.contains_key(name) <==> other.contains(name));
    }
    same_names_same_order(names, other);
}

/// `names`, which are in order, with `name` put in its place.
spec fn with_name(names: Seq<Seq<char>>, name: Seq<char>) -> Seq<Seq<char>>
    decreases names.len(),
{
    if names.len() == 0 || name_before(names.last(), name) {
        names.push(name)
    } else {
        with_name(names.drop_last(), name).push(names.last())
    }
}

proof fn with_name_is_in_order(names: Seq<Seq<char>>, name: Seq<char>)
    requires
        forall|i: int, j: int| 0 <= i < j < names.len() ==> name_before(#[trigger] names[i], #[trigger] names[j]),
        !names.contains(name),
    ensures
        forall|i: int, j: int|
            0 <= i < j < with_name(names, name).len() ==> name_before(
                #[trigger] with_name(names, name)[i],
                #[trigger] with_name(names, name)[j],
            ),
        forall|other: Seq<char>| #[trigger]
            with_name(names, name).contains(other) <==> names.contains(other) || other == name,
    decreases names.len(),
{
    let res = with_name(names, name);
    if names.len() == 0 || name_before(names.last(), name) {
        assert forall|i: int, j: int| 0 <= i < j < res.len() implies name_before(
            #[trigger] res[i],
            #[trigger] res[j],
        ) by {
            if j == names.len() {
                names_are_strictly_ordered(names[i], names[names.len() - 1], name);
            }
        }
        assert forall|other: Seq<char>| #[trigger] res.contains(other) <==> names.contains(other) || other
            == name by {
            if names.contains(other) {
                let i = choose|i: int| 0 <= i < names.len() && names[i] == other;
                assert(res[i] == other);
            }
            assert(res[names.len() as int] == name);
            if res.contains(other) && other != name {
                let i = choose|i: int| 0 <= i < res.len() && res[i] == other;
                assert(names[i] == other);
            }
        }
    } else {
        let init = names.drop_last();
        let last = names.last();
        assert(!init.contains(name)) by {
            if init.contains(name) {
                let i = choose|i: int| 0 <= i < init.len() && init[i] == name;
                assert(names[i] == name);
            }
        }
        with_name_is_in_order(init, name);
        let inner = with_name(init, name);
        assert(names[names.len() - 1] == last);
        names_are_strictly_ordered(name, last, last);
        assert(name_before(name, last));
        assert forall|i: int, j: int| 0 <= i < j < res.len() implies name_before(
            #[trigger] res[i],
            #[trigger] res[j],
        ) by {
            if j == inner.len() {
                assert(inner.contains(inner[i]));
                if inner[i] != name {
                    let k = choose|k: int| 0 <= k < init.len() && init[k] == inner[i];
                    assert(name_before(names[k], names[names.len() - 1]));
                }
            } else {
                assert(name_before(inner[i], inner[j]));
            }
        }
        assert forall|other: Seq<char>| #[trigger] res.contains(other) <==> names.contains(other) || other
            == name by {
            assert(res[inner.len() as int] == last);
            if res.contains(other) {
                let i = choose|i: int| 0 <= i < res.len() && res[i] == other;
                if i < inner.len() {
                    assert(inner[i] == other);
                    assert(inner.contains(other));
                    if other != name {
                        let k = choose|k: int| 0 <= k < init.len() && init[k] == other;
                        assert(names[k] == other);
                    }
                }
            }
            if names.contains(other) {
                let i = choose|i: int| 0 <= i < names.len() && names[i] == other;
                if i < init.len() {
                    assert(init[i] == other);
                    assert(inner.contains(other));
                }
            }
            if other == name {
                assert(inner.contains(other));
            }
            if inner.contains(other) {
                let k = choose|k: int| 0 <= k < inner.len() && inner[k] == other;
                assert(res[k] == other);
            }
        }
    }
}

/// Every finite map has a listing.
pub proof fn finite_maps_are_listed<V>(map: Map<Seq<char>, V>)
    requires
        map.dom().finite(),
    ensures
        is_listing(listing(map), map),
    decreases map.dom().len(),
{
    if map.dom().len() == 0 {
        let names = Seq::<Seq<char>>::empty();
        assert(map.dom() =~= Set::empty());
        assert forall|name: Seq<char>| #[trigger] map.contains_key(name) <==> names.contains(name) by {
            assert(!map.dom().contains(name));
        }
        assert(is_listing(names, map));
    } else {
        let name = map.dom().choose();
        let rest = map.remove(name);
        assert(rest.dom() =~= map.dom().remove(name));
        finite_maps_are_listed(rest);
        let names = listing(rest);
        assert(!rest.contains_key(name));
        with_name_is_in_order(names, name);
        let all = with_name(names, name);
        assert forall|other: Seq<char>| #[trigger] map.contains_key(other) <==> all.contains(other) by {
            let _ = rest.contains_key(other);
        }
        assert(is_listing(all, map));
    }
}

/// The listing of a map names each of its keys, each once, and nothing else, in order.
pub proof fn listings_name_each_key_once<V>(map: Map<Seq<char>, V>)
    requires
        map.dom().finite(),
    ensures
        forall|name: Seq<char>| #[trigger] listing(map).contains(name) <==> map.contains_key(name),
        forall|i: int, j: int|
            0 <= i < j < listing(map).len() ==> name_before(
                #[trigger] listing(map)[i],
                #[trigger] listing(map)[j],
            ),
        listing(map).no_duplicates(),
        listing(map).len() == map.dom().len(),
{
    finite_maps_are_listed(map);
    let names = listing(map);
    assert forall|name: Seq<char>| #[trigger] names.contains(name) <==> map.contains_key(name) by {
        let _ = map.contains_key(name);
    }
    assert forall|i: int, j: int| 0 <= i < names.len() && 0 <= j < names.len() && i != j implies names[i]
        != names[j] by {
        names_are_strictly_ordered(names[i], names[i], names[i]);
        if i < j {
            assert(name_before(names[i], names[j]));
        } else {
            assert(name_before(names[j], names[i]));
        }
    }
    names.unique_seq_to_set();
    assert(names.to_set() =~= map.dom()) by {
        assert forall|name: Seq<char>| names.to_set().contains(name) <==> #[trigger] map.dom().contains(
            name,
        ) by {
            assert(names.contains(name) <==> map.contains_key(name));
        }
    }
}

enum Position {
    Before,
    Same,
    After,
}

/// Where `a` stands to `b`.
fn compare(a: &String, b: &String) -> (res: Position)
    ensures
        match res {
            Position::Before => name_before(a@, b@),
            Position::Same => a@ == b@,
            Position::After => name_before(b@, a@),
        },
{
    let left = a.as_str().as_bytes();
    let right = b.as_str().as_bytes();
    let mut i: usize = 0;
    proof {
        assert(left@.skip(0) =~= left@);
        assert(right@.skip(0) =~= right@);
    }
    while i < left.len() && i < right.len() && left[i] == right[i]
        invariant
            i <= left@.len(),
            i <= right@.len(),
            left@.take(i as int) == right@.take(i as int),
            bytes_before(left@, right@) == bytes_before(left@.skip(i as int), right@.skip(i as int)),
            bytes_before(right@, left@) == bytes_before(right@.skip(i as int), left@.skip(i as int)),
        decreases left.len() - i,
    {
        proof {
            assert(left@.skip(i as int).drop_first() =~= left@.skip(i + 1));
            assert(right@.skip(i as int).drop_first() =~= right@.skip(i + 1));
            assert(left@.take(i + 1) =~= left@.take(i as int).push(left@[i as int]));
            assert(right@.take(i + 1) =~= right@.take(i as int).push(right@[i as int]));
        }
        i = i + 1;
    }
    if i < left.len() && i < right.len() {
        if left[i] < right[i] {
            Position::Before
        } else {
            Position::After
        }
    } else if i < right.len() {
        Position::Before
    } else if i < left.len() {
        Position::After
    } else {
        proof {
            assert(left@.take(i as int) =~= left@);
            assert(right@.take(i as int) =~= right@);
            encode_utf8_decode_utf8(a@);
            encode_utf8_decode_utf8(b@);
        }
        Position::Same
    }
}

/// Whether the names of `entries` stand in order; no name then occurs twice.
spec fn in_name_order<V>(entries: Seq<(String, V)>) -> bool {
    forall|i: int, j: int|
        0 <= i < j < entries.len() ==> name_before(#[trigger] entries[i].0@, #[trigger] entries[j].0@)
}

/// Whether `entries` holds an entry of this name.
spec fn has_name<V>(entries: Seq<(String, V)>, name: Seq<char>) -> bool {
    exists|i: int| 0 <= i < entries.len() && #[trigger] entries[i].0@ == name
}

/// The map that `entries` stands for.
spec fn content<V>(entries: Seq<(String, V)>) -> Map<Seq<char>, V> {
    Map::new(
        |name: Seq<char>| has_name(entries, name),
        |name: Seq<char>|
            entries[choose|i: int| 0 <= i < entries.len() && #[trigger] entries[i].0@ == name].1,
    )
}

/// Each entry is found in the map.
proof fn content_at<V>(entries: Seq<(String, V)>, i: int)
    requires
        in_name_order(entries),
        0 <= i < entries.len(),
    ensures
        content(entries).contains_key(entries[i].0@),
        content(entries)[entries[i].0@] == entries[i].1,
{
    let name = entries[i].0@;
    assert(has_name(entries, name));
    let k = choose|k: int| 0 <= k < entries.len() && #[trigger] entries[k].0@ == name;
    names_are_strictly_ordered(name, name, name);
    assert(k == i);
}

/// Putting `entry` in at `i`, or in the place of the entry of its name, inserts it into the map.
proof fn content_inserted<V>(
    before: Seq<(String, V)>,
    after: Seq<(String, V)>,
    i: int,
    entry: (String, V),
)
    requires
        in_name_order(before),
        in_name_order(after),
        (0 <= i <= before.len() && after == before.insert(i, entry)) || (0 <= i < before.len()
            && before[i].0@ == entry.0@ && after == before.update(i, entry)),
    ensures
        content(after) == content(before).insert(entry.0@, entry.1),
{
    let expected = content(before).insert(entry.0@, entry.1);
    let shift: int = if after.len() == before.len() { 0 } else { 1 };
    assert(after[i] == entry);
    content_at(after, i);
    assert forall|name: Seq<char>| content(after).contains_key(name) == #[trigger] expected.contains_key(
        name,
    ) by {
        if content(after).contains_key(name) && name != entry.0@ {
            let k = choose|k: int| 0 <= k < after.len() && #[trigger] after[k].0@ == name;
            let m = if k < i { k } else { k - shift };
            assert(before[m] == after[k]);
            assert(has_name(before, name));
        }
        if content(before).contains_key(name) && name != entry.0@ {
            let m = choose|m: int| 0 <= m < before.len() && #[trigger] before[m].0@ == name;
            let k = if m < i { m } else { m + shift };
            assert(before[m] == after[k]);
            assert(has_name(after, name));
        }
    }
    assert forall|name: Seq<char>| #[trigger] content(after).contains_key(name) implies content(
        after,
    )[name] == expected[name] by {
        if name != entry.0@ {
            let k = choose|k: int| 0 <= k < after.len() && #[trigger] after[k].0@ == name;
            let m = if k < i { k } else { k - shift };
            assert(before[m] == after[k]);
            content_at(after, k);
            content_at(before, m);
        }
    }
    assert(content(after) =~= expected);
}

/// Taking the entry at `i` out removes its name from the map.
proof fn content_removed<V>(entries: Seq<(String, V)>, i: int)
    requires
        in_name_order(entries),
        0 <= i < entries.len(),
    ensures
        in_name_order(entries.remove(i)),
        content(entries.remove(i)) == content(entries).remove(entries[i].0@),
{
    let after = entries.remove(i);
    let gone = entries[i].0@;
    let expected = content(entries).remove(gone);
    assert forall|j: int, k: int| 0 <= j < k < after.len() implies name_before(
        #[trigger] after[j].0@,
        #[trigger] after[k].0@,
    ) by {
        let m = if j < i { j } else { j + 1 };
        let n = if k < i { k } else { k + 1 };
        assert(name_before(entries[m].0@, entries[n].0@));
    }
    assert forall|name: Seq<char>| content(after).contains_key(name) == #[trigger] expected.contains_key(
        name,
    ) by {
        if content(after).contains_key(name) {
            let k = choose|k: int| 0 <= k < after.len() && #[trigger] after[k].0@ == name;
            let m = if k < i { k } else { k + 1 };
            assert(entries[m] == after[k]);
            assert(has_name(entries, name));
            names_are_strictly_ordered(name, gone, gone);
        }
        if expected.contains_key(name) {
            let m = choose|m: int| 0 <= m < entries.len() && #[trigger] entries[m].0@ == name;
            let k = if m < i { m } else { m - 1 };
            assert(entries[m] == after[k]);
            assert(has_name(after, name));
        }
    }
    assert forall|name: Seq<char>| #[trigger] content(after).contains_key(name) implies content(
        after,
    )[name] == expected[name] by {
        let k = choose|k: int| 0 <= k < after.len() && #[trigger] after[k].0@ == name;
        let m = if k < i { k } else { k + 1 };
        assert(entries[m] == after[k]);
        content_at(after, k);
        content_at(entries, m);
        assert(expected.contains_key(name));
    }
    assert(content(after) =~= expected);
}

/// A map from field names to values that is walked in the order of the names.
#[derive(Debug, PartialEq)]
pub struct FieldMap<V> {
    entries: Vec<(String, V)>,
}

impl<V> View for FieldMap<V> {
    type V = Map<Seq<char>, V>;

    closed spec fn view(&self) -> Map<Seq<char>, V> {
        content(self.entries@)
    }
}

impl<V> FieldMap<V> {
    #[verifier::type_invariant]
    spec fn well_formed(self) -> bool {
        in_name_order(self.entries@)
    }

    /// The names in this map, in order.
    spec fn names(&self) -> Seq<Seq<char>> {
        self.entries@.map_values(|entry: (String, V)| entry.0@)
    }

    /// A map of fields is finite.
    pub proof fn is_finite(&self)
        ensures
            self@.dom().finite(),
    {
        let names = self.names();
        assert forall|name: Seq<char>| #[trigger] self@.dom().contains(name) implies names.to_set().contains(
            name,
        ) by {
            let i = choose|i: int| 0 <= i < self.entries@.len() && #[trigger] self.entries@[i].0@ == name;
            assert(names[i] == name);
        }
        vstd::seq_lib::seq_to_set_is_finite(names);
        assert(self@.dom().subset_of(names.to_set()));
        vstd::set_lib::lemma_set_subset_finite(names.to_set(), self@.dom());
    }

    /// A map without fields.
    pub fn new() -> (res: Self)
        ensures
            res@ == Map::<Seq<char>, V>::empty(),
    {
        let res = FieldMap { entries: Vec::new() };
        assert(res@ =~= Map::<Seq<char>, V>::empty());
        res
    }

    /// The number of fields.
    pub fn len(&self) -> (res: usize)
        ensures
            res == listing(self@).len(),
            is_listing(listing(self@), self@),
    {
        proof {
            use_type_invariant(self);
            self.names_list_content();
        }
        self.entries.len()
    }

    /// Finds the entry named `field`, or where such an entry would stand.
    fn position(&self, field: &String) -> (res: Result<usize, usize>)
        ensures
            in_name_order(self.entries@),
            match res {
                Ok(i) => i < self.entries@.len() && self.entries@[i as int].0@ == field@,
                Err(i) => {
                    &&& i <= self.entries@.len()
                    &&& forall|j: int| 0 <= j < i ==> name_before(#[trigger] self.entries@[j].0@, field@)
                    &&& forall|j: int|
                        i <= j < self.entries@.len() ==> name_before(field@, #[trigger] self.entries@[j].0@)
                },
            },
    {
        proof {
            use_type_invariant(self);
        }
        let mut low: usize = 0;
        let mut high: usize = self.entries.len();
        while low < high
            invariant
                in_name_order(self.entries@),
                low <= high <= self.entries@.len(),
                forall|j: int| 0 <= j < low ==> name_before(#[trigger] self.entries@[j].0@, field@),
                forall|j: int|
                    high <= j < self.entries@.len() ==> name_before(field@, #[trigger] self.entries@[j].0@),
            decreases high - low,
        {
            let middle = low + (high - low) / 2;
            match compare(&self.entries[middle].0, field) {
                Position::Same => {
                    return Ok(middle);
                },
                Position::Before => {
                    proof {
                        assert forall|j: int| 0 <= j < middle + 1 implies name_before(
                            #[trigger] self.entries@[j].0@,
                            field@,
                        ) by {
                            names_are_strictly_ordered(
                                self.entries@[j].0@,
                                self.entries@[middle as int].0@,
                                field@,
                            );
                        }
                    }
                    low = middle + 1;
                },
                Position::After => {
                    proof {
                        assert forall|j: int|
                            middle <= j < self.entries@.len() implies name_before(
                            field@,
                            #[trigger] self.entries@[j].0@,
                        ) by {
                            names_are_strictly_ordered(
                                field@,
                                self.entries@[middle as int].0@,
                                self.entries@[j].0@,
                            );
                        }
                    }
                    high = middle;
                },
            }
        }
        Err(low)
    }

    proof fn absent(&self, field: Seq<char>, i: int)
        requires
            0 <= i <= self.entries@.len(),
            forall|j: int| 0 <= j < i ==> name_before(#[trigger] self.entries@[j].0@, field),
            forall|j: int| i <= j < self.entries@.len() ==> name_before(field, #[trigger] self.entries@[j].0@),
        ensures
            !self@.contains_key(field),
    {
        names_are_strictly_ordered(field, field, field);
        if self@.contains_key(field) {
            let j = choose|j: int| 0 <= j < self.entries@.len() && #[trigger] self.entries@[j].0@ == field;
            assert(name_before(field, field));
        }
    }

    /// The value of `field`, where there is one.
    pub fn get(&self, field: &String) -> (res: Option<&V>)
        ensures
            match res {
                Some(value) => self@.contains_key(field@) && *value == self@[field@],
                None => !self@.contains_key(field@),
            },
    {
        match self.position(field) {
            Ok(i) => {
                proof {
                    content_at(self.entries@, i as int);
                }
                Some(&self.entries[i].1)
            },
            Err(i) => {
                proof {
                    self.absent(field@, i as int);
                }
                None
            },
        }
    }

    /// Gives `field` the value `value`, whether it had one before or not.
    pub fn insert(&mut self, field: String, value: V)
        ensures
            final(self)@ == old(self)@.insert(field@, value),
    {
        let position = self.position(&field);
        let mut entries: Vec<(String, V)> = Vec::new();
        std::mem::swap(&mut self.entries, &mut entries);
        let ghost before = entries@;
        let ghost entry = (field, value);
        match position {
            Ok(i) => {
                entries[i] = (field, value);
                proof {
                    assert forall|j: int, k: int| 0 <= j < k < entries@.len() implies name_before(
                        #[trigger] entries@[j].0@,
                        #[trigger] entries@[k].0@,
                    ) by {
                        assert(entries@[j].0@ == before[j].0@);
                        assert(entries@[k].0@ == before[k].0@);
                    }
                    content_inserted(before, entries@, i as int, entry);
                }
            },
            Err(i) => {
                entries.insert(i, (field, value));
                proof {
                    assert forall|j: int, k: int| 0 <= j < k < entries@.len() implies name_before(
                        #[trigger] entries@[j].0@,
                        #[trigger] entries@[k].0@,
                    ) by {
                        if j != i {
                            assert(entries@[j] == before[if j < i { j } else { j - 1 }]);
                        }
                        if k != i {
                            assert(entries@[k] == before[if k < i { k } else { k - 1 }]);
                        }
                    }
                    content_inserted(before, entries@, i as int, entry);
                }
            },
        }
        self.entries = entries;
    }

    /// Gives `field` the value `value` unless it has one already.
    pub fn insert_if_absent(&mut self, field: String, value: V)
        ensures
            final(self)@ == if old(self)@.contains_key(field@) {
                old(self)@
            } else {
                old(self)@.insert(field@, value)
            },
    {
        if self.get(&field).is_none() {
            self.insert(field, value);
        }
    }

    /// Takes `field` and its value out, where it is there.
    pub fn remove(&mut self, field: &String)
        ensures
            final(self)@ == old(self)@.remove(field@),
    {
        match self.position(field) {
            Ok(i) => {
                let mut entries: Vec<(String, V)> = Vec::new();
                std::mem::swap(&mut self.entries, &mut entries);
                proof {
                    content_removed(entries@, i as int);
                }
                let _ = entries.remove(i);
                self.entries = entries;
            },
            Err(i) => {
                proof {
                    self.absent(field@, i as int);
                    assert(self@ =~= self@.remove(field@));
                }
            },
        }
    }

    /// The field at position `i` in the order of the names, and its value.
    pub fn at(&self, i: usize) -> (res: (&String, &V))
        requires
            i < listing(self@).len(),
        ensures
            res.0@ == listing(self@)[i as int],
            self@.contains_key(res.0@),
            *res.1 == self@[res.0@],
    {
        proof {
            use_type_invariant(self);
            self.names_list_content();
            content_at(self.entries@, i as int);
        }
        (&self.entries[i].0, &self.entries[i].1)
    }

    /// The fields with their values, in the order of the names.
    pub fn into_entries(self) -> (res: Vec<(String, V)>)
        ensures
            is_listing(listing(self@), self@),
            res@.len() == listing(self@).len(),
            forall|i: int|
                0 <= i < res@.len() ==> (#[trigger] res@[i]).0@ == listing(self@)[i] && res@[i].1
                    == self@[listing(self@)[i]],
    {
        proof {
            use_type_invariant(&self);
            self.names_list_content();
        }
        self.entries
    }

    proof fn names_list_content(&self)
        requires
            in_name_order(self.entries@),
        ensures
            is_listing(self.names(), self@),
            self.names() == listing(self@),
            self.names().len() == self.entries@.len(),
            forall|i: int|
                0 <= i < self.entries@.len() ==> #[trigger] self.names()[i] == self.entries@[i].0@
                    && self@[self.names()[i]] == self.entries@[i].1,
    {
        assert forall|name: Seq<char>| #[trigger]
            self@.contains_key(name) <==> self.names().contains(name) by {
            if self@.contains_key(name) {
                let i = choose|i: int| 0 <= i < self.entries@.len() && #[trigger] self.entries@[i].0@ == name;
                assert(self.names()[i] == name);
            }
            if self.names().contains(name) {
                let i = choose|i: int| 0 <= i < self.names().len() && #[trigger] self.names()[i] == name;
                assert(self.entries@[i].0@ == name);
            }
        }
        assert forall|i: int| 0 <= i < self.entries@.len() implies #[trigger] self.names()[i]
            == self.entries@[i].0@ && self@[self.names()[i]] == self.entries@[i].1 by {
            content_at(self.entries@, i);
        }
        listing_is_unique(self.names(), self@);
    }
}

} // verus!
