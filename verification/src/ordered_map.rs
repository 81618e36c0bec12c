//! The insertion-ordered map of the store, an `indexmap::IndexMap`, and what
//! the store relies on of its methods.

use vstd::prelude::*;
use indexmap::IndexMap;
use crate::entry::{DBEntry, EntryView};

verus! {

#[verifier::external_type_specification]
#[verifier::external_body]
#[verifier::reject_recursive_types(K)]
#[verifier::reject_recursive_types(V)]
#[verifier::reject_recursive_types(S)]
pub struct ExIndexMap<K, V, S>(IndexMap<K, V, S>);

/// The pairs that the map holds, in its order.
pub uninterp spec fn pairs(map: IndexMap<String, DBEntry>) -> Seq<(Seq<char>, EntryView)>;

/// The keys of a sequence of pairs, in order.
pub open spec fn keys_of(s: Seq<(Seq<char>, EntryView)>) -> Seq<Seq<char>> {
    s.map_values(|p: (Seq<char>, EntryView)| p.0)
}

/// The position of `key` among the pairs, or the number of pairs where no
/// pair has that key.
pub open spec fn position(s: Seq<(Seq<char>, EntryView)>, key: Seq<char>) -> int
    decreases s.len(),
{
    if s.len() == 0 {
        0
    } else if s[0].0 == key {
        0
    } else {
        1 + position(s.drop_first(), key)
    }
}

/// Whether some pair has the key.
pub open spec fn has_key(s: Seq<(Seq<char>, EntryView)>, key: Seq<char>) -> bool {
    position(s, key) < s.len()
}

/// The pairs after `key` was set to `value`: a key that is there keeps its
/// place and gets the new value, a new key goes to the end.
pub open spec fn put(s: Seq<(Seq<char>, EntryView)>, key: Seq<char>, value: EntryView) -> Seq<(Seq<char>, EntryView)> {
    if has_key(s, key) {
        s.update(position(s, key), (key, value))
    } else {
        s.push((key, value))
    }
}

/// The pairs after `key` was taken out: those behind it move up by one and
/// keep their order.
pub open spec fn take_out(s: Seq<(Seq<char>, EntryView)>, key: Seq<char>) -> Seq<(Seq<char>, EntryView)> {
    if has_key(s, key) {
        s.remove(position(s, key))
    } else {
        s
    }
}

/// The value that the pairs hold for `key`.
pub open spec fn value_of(s: Seq<(Seq<char>, EntryView)>, key: Seq<char>) -> Option<EntryView> {
    if has_key(s, key) {
        Some(s[position(s, key)].1)
    } else {
        None
    }
}

/// No key occurs twice. Every map has this property; contracts that need it
/// ask for it of the pairs they are given.
pub open spec fn distinct_keys(s: Seq<(Seq<char>, EntryView)>) -> bool {
    forall|i: int, j: int| 0 <= i < j < s.len() ==> (#[trigger] s[i]).0 != (#[trigger] s[j]).0
}

/// The position of a key is the first place that holds it.
pub proof fn lemma_position(s: Seq<(Seq<char>, EntryView)>, key: Seq<char>)
    ensures
        0 <= position(s, key) <= s.len(),
        position(s, key) < s.len() ==> s[position(s, key)].0 == key,
        forall|i: int| 0 <= i < position(s, key) ==> (#[trigger] s[i]).0 != key,
    decreases s.len(),
{
    if s.len() == 0 {
    } else if s[0].0 == key {
    } else {
        let rest = s.drop_first();
        lemma_position(rest, key);
        assert forall|i: int| 0 <= i < position(s, key) implies (#[trigger] s[i]).0 != key by {
            if i > 0 {
                assert(rest[i - 1] == s[i]);
            }
        }
    }
}

/// A key that stands at `i` among distinct keys has the position `i`.
pub proof fn lemma_position_at(s: Seq<(Seq<char>, EntryView)>, i: int)
    requires
        distinct_keys(s),
        0 <= i < s.len(),
    ensures
        position(s, s[i].0) == i,
{
    lemma_position(s, s[i].0);
    let p = position(s, s[i].0);
    if p < i {
        assert(s[p].0 != s[i].0);
    }
}

/// Setting a key: the key has the value afterwards, every other key holds
/// what it held, and distinct keys stay distinct.
pub proof fn lemma_put(s: Seq<(Seq<char>, EntryView)>, key: Seq<char>, value: EntryView)
    ensures
        value_of(put(s, key, value), key) == Some(value),
        forall|other: Seq<char>| other != key ==> #[trigger] value_of(put(s, key, value), other) == value_of(s, other),
        distinct_keys(s) ==> distinct_keys(put(s, key, value)),
{
    let after = put(s, key, value);
    lemma_position(s, key);
    lemma_position(after, key);
    if has_key(s, key) {
        let i = position(s, key);
        assert(after[i].0 == key);
        if position(after, key) < i {
            assert(s[position(after, key)].0 == key);
        }
    } else {
        assert(after[s.len() as int].0 == key);
        if position(after, key) < s.len() {
            assert(s[position(after, key)].0 == key);
        }
    }
    assert forall|other: Seq<char>| other != key implies #[trigger] value_of(after, other) == value_of(s, other) by {
        lemma_position(s, other);
        lemma_position(after, other);
        if has_key(s, other) {
            let i = position(s, other);
            assert(after[i].0 == other);
            if position(after, other) < i {
                assert(s[position(after, other)].0 == other);
            }
        } else {
            if has_key(after, other) {
                let i = position(after, other);
                if i < s.len() {
                    assert(s[i].0 == other);
                }
            }
        }
    }
    if distinct_keys(s) {
        assert forall|i: int, j: int| 0 <= i < j < after.len() implies (#[trigger] after[i]).0 != (#[trigger] after[j]).0 by {
            if has_key(s, key) {
                assert(s[i].0 != s[j].0);
                let p = position(s, key);
                if i == p {
                    assert(s[i].0 == key);
                }
                if j == p {
                    assert(s[j].0 == key);
                }
            } else {
                if j < s.len() {
                    assert(s[i].0 != s[j].0);
                } else {
                    assert(s[i].0 != key);
                }
            }
        }
    }
}

/// Taking a key out of distinct keys: the key is gone afterwards, every other
/// key holds what it held, and the keys stay distinct.
pub proof fn lemma_take_out(s: Seq<(Seq<char>, EntryView)>, key: Seq<char>)
    requires
        distinct_keys(s),
    ensures
        value_of(take_out(s, key), key) is None,
        forall|other: Seq<char>| other != key ==> #[trigger] value_of(take_out(s, key), other) == value_of(s, other),
        distinct_keys(take_out(s, key)),
{
    let after = take_out(s, key);
    lemma_position(s, key);
    lemma_position(after, key);
    if has_key(s, key) {
        let p = position(s, key);
        if has_key(after, key) {
            let q = position(after, key);
            if q < p {
                assert(s[q].0 == key);
            } else {
                assert(s[q + 1].0 == key);
                assert(s[p].0 != s[q + 1].0);
            }
        }
        assert forall|other: Seq<char>| other != key implies #[trigger] value_of(after, other) == value_of(s, other) by {
            lemma_position(s, other);
            lemma_position(after, other);
            if has_key(s, other) {
                let i = position(s, other);
                let i2 = if i < p { i } else { i - 1 };
                assert(after[i2] == s[i]);
                let q = position(after, other);
                if q < i2 {
                    let q2 = if q < p { q } else { q + 1 };
                    assert(s[q2] == after[q]);
                    assert(s[q2].0 != s[i].0);
                }
            } else {
                if has_key(after, other) {
                    let q = position(after, other);
                    let q2 = if q < p { q } else { q + 1 };
                    assert(s[q2] == after[q]);
                }
            }
        }
        assert forall|i: int, j: int| 0 <= i < j < after.len() implies (#[trigger] after[i]).0 != (#[trigger] after[j]).0 by {
            let from_i = if i < p { i } else { i + 1 };
            let from_j = if j < p { j } else { j + 1 };
            assert(after[i] == s[from_i] && after[j] == s[from_j]);
            assert(s[from_i].0 != s[from_j].0);
        }
    }
}

/// Every pair after a key was set is the new pair or was there before.
pub proof fn lemma_put_pairs(s: Seq<(Seq<char>, EntryView)>, key: Seq<char>, value: EntryView)
    ensures
        forall|j: int|
            0 <= j < put(s, key, value).len() ==> (#[trigger] put(s, key, value)[j]) == (key, value) || (0 <= j
                < s.len() && s[j] == put(s, key, value)[j]),
{
    lemma_position(s, key);
}

/// Every pair after a key was taken out of distinct keys was there before,
/// under another key.
pub proof fn lemma_take_out_pairs(s: Seq<(Seq<char>, EntryView)>, key: Seq<char>)
    requires
        distinct_keys(s),
    ensures
        forall|j: int|
            0 <= j < take_out(s, key).len() ==> (#[trigger] take_out(s, key)[j]).0 != key && exists|i: int|
                0 <= i < s.len() && s[i] == take_out(s, key)[j],
{
    lemma_position(s, key);
    let after = take_out(s, key);
    if has_key(s, key) {
        let p = position(s, key);
        assert forall|j: int| 0 <= j < after.len() implies (#[trigger] after[j]).0 != key && exists|i: int|
            0 <= i < s.len() && s[i] == after[j] by {
            let i = if j < p { j } else { j + 1 };
            assert(s[i] == after[j]);
            assert(s[i].0 != s[p].0);
        }
    } else {
        assert forall|j: int| 0 <= j < after.len() implies (#[trigger] after[j]).0 != key && exists|i: int|
            0 <= i < s.len() && s[i] == after[j] by {
            assert(s[j] == after[j]);
        }
    }
}

/// A value that may be missing, as contracts see it.
pub open spec fn viewed(e: Option<DBEntry>) -> Option<EntryView> {
    match e {
        Some(e) => Some(e@),
        None => None,
    }
}

/// Calls `IndexMap::new`, which makes a map without pairs.
#[verifier::external_body]
pub(crate) fn new_map() -> (map: IndexMap<String, DBEntry>)
    ensures
        pairs(map) == Seq::<(Seq<char>, EntryView)>::empty(),
{
    IndexMap::new()
}

/// Calls `IndexMap::len`, the number of pairs.
#[verifier::external_body]
pub(crate) fn map_len(map: &IndexMap<String, DBEntry>) -> (n: usize)
    ensures
        n == pairs(*map).len(),
{
    map.len()
}

/// Calls `IndexMap::insert`. Where the key is in the map it keeps its place,
/// its value is replaced and the old value comes back; otherwise the pair
/// becomes the last one and nothing comes back.
#[verifier::external_body]
pub(crate) fn map_insert(map: &mut IndexMap<String, DBEntry>, key: String, value: DBEntry) -> (previous: Option<DBEntry>)
    ensures
        pairs(*final(map)) == put(pairs(*old(map)), key@, value@),
        viewed(previous) == value_of(pairs(*old(map)), key@),
{
    map.insert(key, value)
}

/// Calls `IndexMap::shift_remove`. Where the key is in the map its pair
/// leaves, the pairs behind it keep their order, and the value comes back;
/// otherwise nothing changes and nothing comes back.
#[verifier::external_body]
pub(crate) fn map_shift_remove(map: &mut IndexMap<String, DBEntry>, key: &str) -> (previous: Option<DBEntry>)
    ensures
        pairs(*final(map)) == take_out(pairs(*old(map)), key@),
        viewed(previous) == value_of(pairs(*old(map)), key@),
{
    map.shift_remove(key)
}

/// Calls `IndexMap::get`, the value stored for the key if there is one.
#[verifier::external_body]
pub(crate) fn map_get<'a>(map: &'a IndexMap<String, DBEntry>, key: &str) -> (found: Option<&'a DBEntry>)
    ensures
        match found {
            Some(e) => value_of(pairs(*map), key@) == Some(e@),
            None => value_of(pairs(*map), key@) is None,
        },
{
    map.get(key)
}

/// Calls `IndexMap::contains_key`.
#[verifier::external_body]
pub(crate) fn map_contains_key(map: &IndexMap<String, DBEntry>, key: &str) -> (found: bool)
    ensures
        found == has_key(pairs(*map), key@),
{
    map.contains_key(key)
}

/// Calls `IndexMap::get_index`, the pair at a position of the order, for the
/// positions below the length.
#[verifier::external_body]
pub(crate) fn map_get_index<'a>(map: &'a IndexMap<String, DBEntry>, index: usize) -> (found: Option<(&'a String, &'a DBEntry)>)
    ensures
        index < pairs(*map).len() ==> found is Some && (found->Some_0.0@, found->Some_0.1@) == pairs(*map)[index as int],
        index >= pairs(*map).len() ==> found is None,
{
    map.get_index(index)
}

/// Calls `IndexMap::drain` over the whole map, which empties it and hands the
/// pairs out in order. Of each pair the value is kept.
#[verifier::external_body]
pub(crate) fn map_drain(map: &mut IndexMap<String, DBEntry>) -> (values: Vec<DBEntry>)
    ensures
        pairs(*final(map)) == Seq::<(Seq<char>, EntryView)>::empty(),
        values.deep_view() == pairs(*old(map)).map_values(|p: (Seq<char>, EntryView)| p.1),
{
    map.drain(..).map(|pair| pair.1).collect()
}

} // verus!
