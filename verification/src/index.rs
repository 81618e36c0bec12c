//! The optional index: for each configured JSON pointer and each string it
//! resolves to, the keys whose values hold that string there.

use vstd::prelude::*;
use vstd::string::StringExecFns;
use indexmap::IndexMap;
use crate::entry::{DBEntry, EntryView};
use crate::json::{json_pointer_string, pointer_string};
use crate::text::same_text;
use crate::ordered_map::{map_get_index, map_len, pairs};

verus! {

/// The name of a bucket: the pointer, an equals sign and the string.
pub open spec fn index_key(pointer: Seq<char>, value: Seq<char>) -> Seq<char> {
    pointer + seq!['='] + value
}

/// Makes the name of the bucket of a pointer and the string it resolves to.
pub fn bucket_name(pointer: &str, value: &str) -> (name: String)
    ensures
        name@ == index_key(pointer@, value@),
{
    proof {
        reveal_strlit("=");
    }
    let mut name = String::from_str(pointer);
    name.append("=");
    name.append(value);
    assert(name@ =~= index_key(pointer@, value@));
    name
}

/// The buckets after `key` joined the bucket `name`, which is made where it
/// is missing.
pub open spec fn with_key(
    buckets: Map<Seq<char>, Set<Seq<char>>>,
    name: Seq<char>,
    key: Seq<char>,
) -> Map<Seq<char>, Set<Seq<char>>> {
    if buckets.dom().contains(name) {
        buckets.insert(name, buckets[name].insert(key))
    } else {
        buckets.insert(name, set![key])
    }
}

/// The buckets after `key` joined each of the buckets `names`, in order.
pub open spec fn with_key_in_all(
    buckets: Map<Seq<char>, Set<Seq<char>>>,
    names: Seq<Seq<char>>,
    key: Seq<char>,
) -> Map<Seq<char>, Set<Seq<char>>>
    decreases names.len(),
{
    if names.len() == 0 {
        buckets
    } else {
        with_key(with_key_in_all(buckets, names.drop_last(), key), names.last(), key)
    }
}

/// The buckets after `key` left every bucket. No bucket goes away.
pub open spec fn without(
    buckets: Map<Seq<char>, Set<Seq<char>>>,
    key: Seq<char>,
) -> Map<Seq<char>, Set<Seq<char>>> {
    Map::new(|name: Seq<char>| buckets.dom().contains(name), |name: Seq<char>| buckets[name].remove(key))
}

/// The buckets after the value `text` of `key` was looked at through each of
/// `pointers`, in order: where a pointer resolves to a string, `key` joins
/// the bucket of that pointer and string.
pub open spec fn with_value(
    buckets: Map<Seq<char>, Set<Seq<char>>>,
    pointers: Seq<Seq<char>>,
    key: Seq<char>,
    text: Seq<char>,
) -> Map<Seq<char>, Set<Seq<char>>>
    decreases pointers.len(),
{
    if pointers.len() == 0 {
        buckets
    } else {
        let before = with_value(buckets, pointers.drop_last(), key, text);
        match json_pointer_string(text, pointers.last()) {
            Some(value) => with_key(before, index_key(pointers.last(), value), key),
            None => before,
        }
    }
}

/// The buckets after every entry of `entries` that the store owns was looked
/// at through each of `pointers`, in the order of the entries.
pub open spec fn with_entries(
    buckets: Map<Seq<char>, Set<Seq<char>>>,
    pointers: Seq<Seq<char>>,
    entries: Seq<(Seq<char>, EntryView)>,
) -> Map<Seq<char>, Set<Seq<char>>>
    decreases entries.len(),
{
    if entries.len() == 0 {
        buckets
    } else {
        let before = with_entries(buckets, pointers, entries.drop_last());
        match entries.last().1 {
            EntryView::Native(text) => with_value(before, pointers, entries.last().0, text),
            EntryView::Reference(_, _) => before,
        }
    }
}

/// Whether the bucket `name` is there and holds `key`.
pub open spec fn holds(buckets: Map<Seq<char>, Set<Seq<char>>>, name: Seq<char>, key: Seq<char>) -> bool {
    buckets.dom().contains(name) && buckets[name].contains(key)
}

/// The index covers the entries: wherever an entry that the store owns has a
/// string at one of the pointers, its key is in the bucket of that pointer
/// and string.
pub open spec fn covers(
    buckets: Map<Seq<char>, Set<Seq<char>>>,
    pointers: Seq<Seq<char>>,
    entries: Seq<(Seq<char>, EntryView)>,
) -> bool {
    forall|j: int, i: int|
        0 <= j < entries.len() && 0 <= i < pointers.len() && (#[trigger] entries[j]).1 is Native
            && json_pointer_string(entries[j].1.text(), #[trigger] pointers[i]) is Some ==> holds(
            buckets,
            index_key(pointers[i], json_pointer_string(entries[j].1.text(), pointers[i])->Some_0),
            entries[j].0,
        )
}

/// A key that joins a bucket is in it afterwards, and nothing leaves.
pub proof fn lemma_with_key(buckets: Map<Seq<char>, Set<Seq<char>>>, name: Seq<char>, key: Seq<char>)
    ensures
        holds(with_key(buckets, name, key), name, key),
        forall|n: Seq<char>, k: Seq<char>| holds(buckets, n, k) ==> #[trigger] holds(with_key(buckets, name, key), n, k),
{
}

/// A key that joins some buckets is in each of them afterwards, and nothing
/// leaves.
pub proof fn lemma_with_key_in_all(buckets: Map<Seq<char>, Set<Seq<char>>>, names: Seq<Seq<char>>, key: Seq<char>)
    ensures
        forall|i: int| 0 <= i < names.len() ==> holds(with_key_in_all(buckets, names, key), #[trigger] names[i], key),
        forall|n: Seq<char>, k: Seq<char>|
            holds(buckets, n, k) ==> #[trigger] holds(with_key_in_all(buckets, names, key), n, k),
    decreases names.len(),
{
    if names.len() > 0 {
        let first = names.drop_last();
        lemma_with_key_in_all(buckets, first, key);
        let before = with_key_in_all(buckets, first, key);
        let after = with_key_in_all(buckets, names, key);
        lemma_with_key(before, names.last(), key);
        assert forall|i: int| 0 <= i < names.len() implies holds(after, #[trigger] names[i], key) by {
            if i < first.len() {
                assert(first[i] == names[i]);
                assert(holds(before, first[i], key));
            }
        }
        assert forall|n: Seq<char>, k: Seq<char>| holds(buckets, n, k) implies #[trigger] holds(after, n, k) by {
            assert(holds(before, n, k));
        }
    }
}

/// Where the value has a string at a pointer, the key is in the bucket of
/// that pointer and string afterwards, and nothing leaves.
pub proof fn lemma_with_value(
    buckets: Map<Seq<char>, Set<Seq<char>>>,
    pointers: Seq<Seq<char>>,
    key: Seq<char>,
    text: Seq<char>,
)
    ensures
        forall|i: int|
            0 <= i < pointers.len() && json_pointer_string(text, #[trigger] pointers[i]) is Some ==> holds(
                with_value(buckets, pointers, key, text),
                index_key(pointers[i], json_pointer_string(text, pointers[i])->Some_0),
                key,
            ),
        forall|n: Seq<char>, k: Seq<char>|
            holds(buckets, n, k) ==> #[trigger] holds(with_value(buckets, pointers, key, text), n, k),
    decreases pointers.len(),
{
    if pointers.len() > 0 {
        let first = pointers.drop_last();
        lemma_with_value(buckets, first, key, text);
        let before = with_value(buckets, first, key, text);
        match json_pointer_string(text, pointers.last()) {
            Some(value) => {
                lemma_with_key(before, index_key(pointers.last(), value), key);
            },
            None => {},
        }
        let after = with_value(buckets, pointers, key, text);
        assert forall|i: int|
            0 <= i < pointers.len() && json_pointer_string(text, #[trigger] pointers[i]) is Some implies holds(
            after,
            index_key(pointers[i], json_pointer_string(text, pointers[i])->Some_0),
            key,
        ) by {
            if i < first.len() {
                assert(first[i] == pointers[i]);
                assert(holds(before, index_key(first[i], json_pointer_string(text, first[i])->Some_0), key));
            }
        }
        assert forall|n: Seq<char>, k: Seq<char>| holds(buckets, n, k) implies #[trigger] holds(after, n, k) by {
            assert(holds(before, n, k));
        }
    }
}

/// Indexing the entries of a store covers them, and nothing leaves.
pub proof fn lemma_with_entries(
    buckets: Map<Seq<char>, Set<Seq<char>>>,
    pointers: Seq<Seq<char>>,
    entries: Seq<(Seq<char>, EntryView)>,
)
    ensures
        covers(with_entries(buckets, pointers, entries), pointers, entries),
        forall|n: Seq<char>, k: Seq<char>|
            holds(buckets, n, k) ==> #[trigger] holds(with_entries(buckets, pointers, entries), n, k),
    decreases entries.len(),
{
    if entries.len() > 0 {
        let first = entries.drop_last();
        lemma_with_entries(buckets, pointers, first);
        let before = with_entries(buckets, pointers, first);
        let after = with_entries(buckets, pointers, entries);
        match entries.last().1 {
            EntryView::Native(text) => {
                lemma_with_value(before, pointers, entries.last().0, text);
            },
            EntryView::Reference(_, _) => {},
        }
        assert forall|n: Seq<char>, k: Seq<char>| holds(buckets, n, k) implies #[trigger] holds(after, n, k) by {
            assert(holds(before, n, k));
        }
        assert forall|j: int, i: int|
            0 <= j < entries.len() && 0 <= i < pointers.len() && (#[trigger] entries[j]).1 is Native
                && json_pointer_string(entries[j].1.text(), #[trigger] pointers[i]) is Some implies holds(
            after,
            index_key(pointers[i], json_pointer_string(entries[j].1.text(), pointers[i])->Some_0),
            entries[j].0,
        ) by {
            if j < first.len() {
                assert(first[j] == entries[j]);
                assert(holds(
                    before,
                    index_key(pointers[i], json_pointer_string(first[j].1.text(), pointers[i])->Some_0),
                    first[j].0,
                ));
            }
        }
    }
}

/// A key that left every bucket is in none, and every other key stays where
/// it was.
pub proof fn lemma_without(buckets: Map<Seq<char>, Set<Seq<char>>>, key: Seq<char>)
    ensures
        forall|n: Seq<char>, k: Seq<char>|
            #[trigger] holds(without(buckets, key), n, k) <==> (holds(buckets, n, k) && k != key),
{
}

/// Whether the value `text` calls for `key` to be in the bucket `name`: one
/// of the pointers resolves to a string in it, and `name` is the bucket of
/// that pointer and string.
pub open spec fn calls_for(pointers: Seq<Seq<char>>, text: Seq<char>, name: Seq<char>) -> bool {
    exists|i: int|
        0 <= i < pointers.len() && json_pointer_string(text, #[trigger] pointers[i]) is Some && name
            == index_key(pointers[i], json_pointer_string(text, pointers[i])->Some_0)
}

/// Whether the entry accounts for `key` being in the bucket `name`: it is
/// the entry of `key`, and it is a value that the host owns, whose buckets
/// the host has worked out, or a value that the store owns and that calls
/// for the bucket.
pub open spec fn accounts_for(
    pointers: Seq<Seq<char>>,
    entry: (Seq<char>, EntryView),
    name: Seq<char>,
    key: Seq<char>,
) -> bool {
    entry.0 == key && (entry.1 is Reference || calls_for(pointers, entry.1.text(), name))
}

/// The index holds nothing but what the entries account for: every key in a
/// bucket is the key of an entry, and where the store owns the value of that
/// entry the value calls for the bucket.
pub open spec fn only_covers(
    buckets: Map<Seq<char>, Set<Seq<char>>>,
    pointers: Seq<Seq<char>>,
    entries: Seq<(Seq<char>, EntryView)>,
) -> bool {
    forall|name: Seq<char>, key: Seq<char>| #[trigger]
        holds(buckets, name, key) ==> exists|j: int|
            0 <= j < entries.len() && accounts_for(pointers, #[trigger] entries[j], name, key)
}

/// The index matches the entries: it covers them, and it holds nothing but
/// what they account for.
pub open spec fn agrees(
    buckets: Map<Seq<char>, Set<Seq<char>>>,
    pointers: Seq<Seq<char>>,
    entries: Seq<(Seq<char>, EntryView)>,
) -> bool {
    covers(buckets, pointers, entries) && only_covers(buckets, pointers, entries)
}

/// A key is in a bucket after it joined one only if it was there before or
/// this is the bucket it joined.
pub proof fn lemma_with_key_only(buckets: Map<Seq<char>, Set<Seq<char>>>, name: Seq<char>, key: Seq<char>)
    ensures
        forall|n: Seq<char>, k: Seq<char>| #[trigger]
            holds(with_key(buckets, name, key), n, k) ==> holds(buckets, n, k) || (n == name && k == key),
{
}

/// A key is in a bucket after a key joined some buckets only if it was there
/// before or it is the key that joined.
pub proof fn lemma_with_key_in_all_only(
    buckets: Map<Seq<char>, Set<Seq<char>>>,
    names: Seq<Seq<char>>,
    key: Seq<char>,
)
    ensures
        forall|n: Seq<char>, k: Seq<char>| #[trigger]
            holds(with_key_in_all(buckets, names, key), n, k) ==> holds(buckets, n, k) || k == key,
    decreases names.len(),
{
    if names.len() > 0 {
        lemma_with_key_in_all_only(buckets, names.drop_last(), key);
        lemma_with_key_only(with_key_in_all(buckets, names.drop_last(), key), names.last(), key);
    }
}

/// A key is in a bucket after a value was indexed only if it was there
/// before or the value calls for it.
pub proof fn lemma_with_value_only(
    buckets: Map<Seq<char>, Set<Seq<char>>>,
    pointers: Seq<Seq<char>>,
    key: Seq<char>,
    text: Seq<char>,
)
    ensures
        forall|n: Seq<char>, k: Seq<char>| #[trigger]
            holds(with_value(buckets, pointers, key, text), n, k) ==> holds(buckets, n, k) || (k == key
                && calls_for(pointers, text, n)),
    decreases pointers.len(),
{
    if pointers.len() > 0 {
        let first = pointers.drop_last();
        lemma_with_value_only(buckets, first, key, text);
        let before = with_value(buckets, first, key, text);
        let after = with_value(buckets, pointers, key, text);
        match json_pointer_string(text, pointers.last()) {
            Some(value) => {
                lemma_with_key_only(before, index_key(pointers.last(), value), key);
            },
            None => {},
        }
        assert forall|n: Seq<char>, k: Seq<char>| #[trigger] holds(after, n, k) implies holds(buckets, n, k) || (k
            == key && calls_for(pointers, text, n)) by {
            if holds(before, n, k) {
                if !holds(buckets, n, k) {
                    let i = choose|i: int|
                        0 <= i < first.len() && json_pointer_string(text, #[trigger] first[i]) is Some && n
                            == index_key(first[i], json_pointer_string(text, first[i])->Some_0);
                    assert(pointers[i] == first[i]);
                }
            } else {
                let last = pointers.len() - 1;
                assert(json_pointer_string(text, pointers[last]) is Some);
                assert(n == index_key(pointers[last], json_pointer_string(text, pointers[last])->Some_0));
            }
        }
    }
}

/// The index that was built from the entries of a store holds nothing but
/// what the entries account for.
pub proof fn lemma_with_entries_only(pointers: Seq<Seq<char>>, entries: Seq<(Seq<char>, EntryView)>)
    ensures
        only_covers(with_entries(Map::empty(), pointers, entries), pointers, entries),
    decreases entries.len(),
{
    let empty = Map::<Seq<char>, Set<Seq<char>>>::empty();
    if entries.len() > 0 {
        let first = entries.drop_last();
        lemma_with_entries_only(pointers, first);
        let before = with_entries(empty, pointers, first);
        let after = with_entries(empty, pointers, entries);
        let last = entries.len() - 1;
        match entries.last().1 {
            EntryView::Native(text) => {
                lemma_with_value_only(before, pointers, entries.last().0, text);
            },
            EntryView::Reference(_, _) => {},
        }
        assert forall|name: Seq<char>, key: Seq<char>| #[trigger] holds(after, name, key) implies exists|j: int|
            0 <= j < entries.len() && accounts_for(pointers, #[trigger] entries[j], name, key) by {
            if holds(before, name, key) {
                let j = choose|j: int| 0 <= j < first.len() && accounts_for(pointers, #[trigger] first[j], name, key);
                assert(entries[j] == first[j]);
            } else {
                assert(accounts_for(pointers, entries[last], name, key));
            }
        }
    }
}

/// What an entry accounted for before a key was set, it accounts for
/// afterwards, unless it is the entry of that key.
proof fn lemma_put_keeps_accounts(
    pointers: Seq<Seq<char>>,
    entries: Seq<(Seq<char>, EntryView)>,
    key: Seq<char>,
    value: EntryView,
    name: Seq<char>,
    k: Seq<char>,
)
    requires
        k != key,
        exists|j: int| 0 <= j < entries.len() && accounts_for(pointers, #[trigger] entries[j], name, k),
    ensures
        exists|j: int|
            0 <= j < crate::ordered_map::put(entries, key, value).len() && accounts_for(
                pointers,
                #[trigger] crate::ordered_map::put(entries, key, value)[j],
                name,
                k,
            ),
{
    let after = crate::ordered_map::put(entries, key, value);
    let j = choose|j: int| 0 <= j < entries.len() && accounts_for(pointers, #[trigger] entries[j], name, k);
    crate::ordered_map::lemma_position(entries, key);
    assert(after[j] == entries[j]);
}

/// The entry of a key after the key was set.
proof fn lemma_put_entry(entries: Seq<(Seq<char>, EntryView)>, key: Seq<char>, value: EntryView)
    ensures
        exists|j: int|
            0 <= j < crate::ordered_map::put(entries, key, value).len() && #[trigger] crate::ordered_map::put(
                entries,
                key,
                value,
            )[j] == (key, value),
{
    let after = crate::ordered_map::put(entries, key, value);
    crate::ordered_map::lemma_position(entries, key);
    if crate::ordered_map::has_key(entries, key) {
        assert(after[crate::ordered_map::position(entries, key)] == (key, value));
    } else {
        assert(after[entries.len() as int] == (key, value));
    }
}

/// Every entry after a key was set among distinct keys is the entry of that
/// key with the new value, or an entry of another key that was there before.
proof fn lemma_put_others(entries: Seq<(Seq<char>, EntryView)>, key: Seq<char>, value: EntryView)
    requires
        crate::ordered_map::distinct_keys(entries),
    ensures
        forall|j: int|
            0 <= j < crate::ordered_map::put(entries, key, value).len() ==> (#[trigger] crate::ordered_map::put(
                entries,
                key,
                value,
            )[j]) == (key, value) || (0 <= j < entries.len() && entries[j] == crate::ordered_map::put(
                entries,
                key,
                value,
            )[j] && entries[j].0 != key),
{
    let after = crate::ordered_map::put(entries, key, value);
    crate::ordered_map::lemma_position(entries, key);
    assert forall|j: int| 0 <= j < after.len() implies (#[trigger] after[j]) == (key, value) || (0 <= j
        < entries.len() && entries[j] == after[j] && entries[j].0 != key) by {
        if crate::ordered_map::has_key(entries, key) {
            let p = crate::ordered_map::position(entries, key);
            if j != p {
                assert(entries[j].0 != entries[p].0);
            }
        }
    }
}

/// Setting a key to a value that the store owns keeps the index matching:
/// the key leaves every bucket and joins those that the new value calls
/// for.
pub proof fn lemma_set_native_matches(
    buckets: Map<Seq<char>, Set<Seq<char>>>,
    pointers: Seq<Seq<char>>,
    entries: Seq<(Seq<char>, EntryView)>,
    key: Seq<char>,
    text: Seq<char>,
)
    requires
        crate::ordered_map::distinct_keys(entries),
        agrees(buckets, pointers, entries),
    ensures
        agrees(
            with_value(without(buckets, key), pointers, key, text),
            pointers,
            crate::ordered_map::put(entries, key, EntryView::Native(text)),
        ),
{
    let value = EntryView::Native(text);
    let after = crate::ordered_map::put(entries, key, value);
    let cleared = without(buckets, key);
    let grown = with_value(cleared, pointers, key, text);
    lemma_without(buckets, key);
    lemma_with_value(cleared, pointers, key, text);
    lemma_with_value_only(cleared, pointers, key, text);
    lemma_put_others(entries, key, value);
    lemma_put_entry(entries, key, value);
    assert forall|j: int, i: int|
        0 <= j < after.len() && 0 <= i < pointers.len() && (#[trigger] after[j]).1 is Native && json_pointer_string(
            after[j].1.text(),
            #[trigger] pointers[i],
        ) is Some implies holds(
        grown,
        index_key(pointers[i], json_pointer_string(after[j].1.text(), pointers[i])->Some_0),
        after[j].0,
    ) by {
        if after[j] != (key, value) {
            let name = index_key(pointers[i], json_pointer_string(entries[j].1.text(), pointers[i])->Some_0);
            assert(holds(buckets, name, entries[j].0));
            assert(holds(cleared, name, entries[j].0));
        }
    }
    assert forall|name: Seq<char>, k: Seq<char>| #[trigger] holds(grown, name, k) implies exists|j: int|
        0 <= j < after.len() && accounts_for(pointers, #[trigger] after[j], name, k) by {
        if holds(cleared, name, k) {
            assert(holds(buckets, name, k) && k != key);
            lemma_put_keeps_accounts(pointers, entries, key, value, name, k);
        } else {
            let j = choose|j: int| 0 <= j < after.len() && #[trigger] after[j] == (key, value);
            assert(accounts_for(pointers, after[j], name, k));
        }
    }
}

/// Setting a key to a value that the host owns keeps the index matching:
/// the key leaves every bucket and joins those that the host has worked out.
pub proof fn lemma_set_reference_matches(
    buckets: Map<Seq<char>, Set<Seq<char>>>,
    pointers: Seq<Seq<char>>,
    entries: Seq<(Seq<char>, EntryView)>,
    key: Seq<char>,
    value: EntryView,
    names: Seq<Seq<char>>,
)
    requires
        crate::ordered_map::distinct_keys(entries),
        agrees(buckets, pointers, entries),
        value is Reference,
    ensures
        agrees(
            with_key_in_all(without(buckets, key), names, key),
            pointers,
            crate::ordered_map::put(entries, key, value),
        ),
{
    let after = crate::ordered_map::put(entries, key, value);
    let cleared = without(buckets, key);
    let grown = with_key_in_all(cleared, names, key);
    lemma_without(buckets, key);
    lemma_with_key_in_all(cleared, names, key);
    lemma_with_key_in_all_only(cleared, names, key);
    lemma_put_others(entries, key, value);
    lemma_put_entry(entries, key, value);
    assert forall|j: int, i: int|
        0 <= j < after.len() && 0 <= i < pointers.len() && (#[trigger] after[j]).1 is Native && json_pointer_string(
            after[j].1.text(),
            #[trigger] pointers[i],
        ) is Some implies holds(
        grown,
        index_key(pointers[i], json_pointer_string(after[j].1.text(), pointers[i])->Some_0),
        after[j].0,
    ) by {
        let name = index_key(pointers[i], json_pointer_string(entries[j].1.text(), pointers[i])->Some_0);
        assert(holds(buckets, name, entries[j].0));
        assert(holds(cleared, name, entries[j].0));
    }
    assert forall|name: Seq<char>, k: Seq<char>| #[trigger] holds(grown, name, k) implies exists|j: int|
        0 <= j < after.len() && accounts_for(pointers, #[trigger] after[j], name, k) by {
        if k != key {
            assert(holds(cleared, name, k));
            assert(holds(buckets, name, k));
            lemma_put_keeps_accounts(pointers, entries, key, value, name, k);
        } else {
            let j = choose|j: int| 0 <= j < after.len() && #[trigger] after[j] == (key, value);
            assert(accounts_for(pointers, after[j], name, k));
        }
    }
}

/// Handing a value of the store over to the host, with the index as it is,
/// keeps the index matching.
pub proof fn lemma_bind_matches(
    buckets: Map<Seq<char>, Set<Seq<char>>>,
    pointers: Seq<Seq<char>>,
    entries: Seq<(Seq<char>, EntryView)>,
    key: Seq<char>,
    value: EntryView,
)
    requires
        crate::ordered_map::distinct_keys(entries),
        agrees(buckets, pointers, entries),
        value is Reference,
    ensures
        agrees(buckets, pointers, crate::ordered_map::put(entries, key, value)),
{
    let after = crate::ordered_map::put(entries, key, value);
    lemma_put_others(entries, key, value);
    lemma_put_entry(entries, key, value);
    assert forall|j: int, i: int|
        0 <= j < after.len() && 0 <= i < pointers.len() && (#[trigger] after[j]).1 is Native && json_pointer_string(
            after[j].1.text(),
            #[trigger] pointers[i],
        ) is Some implies holds(
        buckets,
        index_key(pointers[i], json_pointer_string(after[j].1.text(), pointers[i])->Some_0),
        after[j].0,
    ) by {
        assert(entries[j] == after[j]);
    }
    assert forall|name: Seq<char>, k: Seq<char>| #[trigger] holds(buckets, name, k) implies exists|j: int|
        0 <= j < after.len() && accounts_for(pointers, #[trigger] after[j], name, k) by {
        if k != key {
            lemma_put_keeps_accounts(pointers, entries, key, value, name, k);
        } else {
            let j = choose|j: int| 0 <= j < after.len() && #[trigger] after[j] == (key, value);
            assert(accounts_for(pointers, after[j], name, k));
        }
    }
}

/// Deleting a key keeps the index matching: the key leaves every bucket.
pub proof fn lemma_delete_matches(
    buckets: Map<Seq<char>, Set<Seq<char>>>,
    pointers: Seq<Seq<char>>,
    entries: Seq<(Seq<char>, EntryView)>,
    key: Seq<char>,
)
    requires
        crate::ordered_map::distinct_keys(entries),
        agrees(buckets, pointers, entries),
    ensures
        agrees(without(buckets, key), pointers, crate::ordered_map::take_out(entries, key)),
{
    let after = crate::ordered_map::take_out(entries, key);
    let shrunk = without(buckets, key);
    lemma_without(buckets, key);
    crate::ordered_map::lemma_position(entries, key);
    crate::ordered_map::lemma_take_out_pairs(entries, key);
    assert forall|j: int, i: int|
        0 <= j < after.len() && 0 <= i < pointers.len() && (#[trigger] after[j]).1 is Native && json_pointer_string(
            after[j].1.text(),
            #[trigger] pointers[i],
        ) is Some implies holds(
        shrunk,
        index_key(pointers[i], json_pointer_string(after[j].1.text(), pointers[i])->Some_0),
        after[j].0,
    ) by {
        let x = choose|x: int| 0 <= x < entries.len() && entries[x] == after[j];
        assert(holds(
            buckets,
            index_key(pointers[i], json_pointer_string(entries[x].1.text(), pointers[i])->Some_0),
            entries[x].0,
        ));
    }
    assert forall|name: Seq<char>, k: Seq<char>| #[trigger] holds(shrunk, name, k) implies exists|j: int|
        0 <= j < after.len() && accounts_for(pointers, #[trigger] after[j], name, k) by {
        assert(holds(buckets, name, k) && k != key);
        let j = choose|j: int| 0 <= j < entries.len() && accounts_for(pointers, #[trigger] entries[j], name, k);
        if crate::ordered_map::has_key(entries, key) {
            let p = crate::ordered_map::position(entries, key);
            let moved = if j < p { j } else { j - 1 };
            assert(after[moved] == entries[j]);
        } else {
            assert(after[j] == entries[j]);
        }
    }
}

/// One bucket: its name and the keys in it.
struct Bucket {
    name: String,
    keys: Vec<String>,
}

impl Bucket {
    spec fn listing(self) -> (Seq<char>, Seq<Seq<char>>) {
        (self.name@, self.keys.deep_view())
    }
}

/// The buckets of a listing as a map from names to sets of keys.
spec fn as_map(listing: Seq<(Seq<char>, Seq<Seq<char>>)>) -> Map<Seq<char>, Set<Seq<char>>> {
    Map::new(
        |name: Seq<char>| exists|i: int| 0 <= i < listing.len() && (#[trigger] listing[i]).0 == name,
        |name: Seq<char>|
            Set::new(
                |key: Seq<char>|
                    exists|i: int|
                        0 <= i < listing.len() && (#[trigger] listing[i]).0 == name
                            && listing[i].1.contains(key),
            ),
    )
}

/// No name occurs twice in a listing, and no key twice in a bucket.
spec fn tidy(listing: Seq<(Seq<char>, Seq<Seq<char>>)>) -> bool {
    &&& forall|i: int, j: int|
        0 <= i < j < listing.len() ==> (#[trigger] listing[i]).0 != (#[trigger] listing[j]).0
    &&& forall|i: int| 0 <= i < listing.len() ==> (#[trigger] listing[i]).1.no_duplicates()
}

/// Two listings with the same names at the same places, where a key is in a
/// bucket of the second if and only if `holds` says so of the first.
proof fn lemma_as_map_by_bucket(
    a: Seq<(Seq<char>, Seq<Seq<char>>)>,
    b: Seq<(Seq<char>, Seq<Seq<char>>)>,
    want: Map<Seq<char>, Set<Seq<char>>>,
)
    requires
        a.len() == b.len(),
        forall|i: int| 0 <= i < a.len() ==> (#[trigger] a[i]).0 == (#[trigger] b[i]).0,
        want.dom() == as_map(a).dom(),
        forall|i: int, k: Seq<char>|
            0 <= i < a.len() ==> (#[trigger] b[i].1.contains(k) ==> want[a[i].0].contains(k)),
        forall|n: Seq<char>, k: Seq<char>|
            want.dom().contains(n) && #[trigger] want[n].contains(k) ==> exists|i: int|
                0 <= i < b.len() && (#[trigger] b[i]).0 == n && b[i].1.contains(k),
    ensures
        as_map(b) == want,
{
    let m = as_map(b);
    assert forall|n: Seq<char>| m.dom().contains(n) <==> want.dom().contains(n) by {
        if m.dom().contains(n) {
            let x = choose|x: int| 0 <= x < b.len() && (#[trigger] b[x]).0 == n;
            assert(a[x].0 == n);
        }
        if want.dom().contains(n) {
            let x = choose|x: int| 0 <= x < a.len() && (#[trigger] a[x]).0 == n;
            assert(b[x].0 == n);
        }
    }
    assert forall|n: Seq<char>| #[trigger] m.dom().contains(n) implies m[n] =~= want[n] by {
        assert forall|k: Seq<char>| m[n].contains(k) <==> want[n].contains(k) by {
            if m[n].contains(k) {
                let x = choose|x: int| 0 <= x < b.len() && (#[trigger] b[x]).0 == n && b[x].1.contains(k);
                assert(a[x].0 == n);
                assert(want[a[x].0].contains(k));
            }
        }
    }
    assert(m =~= want);
}

/// Putting a new key into the bucket at `i`.
proof fn lemma_bucket_grows(listing: Seq<(Seq<char>, Seq<Seq<char>>)>, i: int, key: Seq<char>)
    requires
        tidy(listing),
        0 <= i < listing.len(),
        !listing[i].1.contains(key),
    ensures
        tidy(listing.update(i, (listing[i].0, listing[i].1.push(key)))),
        as_map(listing.update(i, (listing[i].0, listing[i].1.push(key)))) == with_key(
            as_map(listing),
            listing[i].0,
            key,
        ),
{
    let name = listing[i].0;
    let grown = listing[i].1.push(key);
    let after = listing.update(i, (name, grown));
    let m = as_map(listing);
    let want = with_key(m, name, key);
    assert(m.dom().contains(name));
    assert(want.dom() =~= m.dom());
    assert(grown[listing[i].1.len() as int] == key);
    assert forall|x: int, k: Seq<char>| 0 <= x < listing.len() && #[trigger] after[x].1.contains(k) implies want[listing[x].0].contains(k) by {
        if x == i {
            let y = choose|y: int| 0 <= y < grown.len() && grown[y] == k;
            if y < listing[i].1.len() {
                assert(listing[i].1[y] == k);
            }
        }
        if k != key || listing[x].0 != name {
            assert(listing[x].1.contains(k));
            assert(m[listing[x].0].contains(k));
        }
    }
    assert forall|n: Seq<char>, k: Seq<char>| want.dom().contains(n) && #[trigger] want[n].contains(k) implies exists|x: int|
        0 <= x < after.len() && (#[trigger] after[x]).0 == n && after[x].1.contains(k) by {
        if n == name && k == key {
            assert(after[i].0 == n && after[i].1.contains(k));
        } else {
            assert(m[n].contains(k));
            let x = choose|x: int| 0 <= x < listing.len() && (#[trigger] listing[x]).0 == n && listing[x].1.contains(k);
            let y = choose|y: int| 0 <= y < listing[x].1.len() && listing[x].1[y] == k;
            if x == i {
                assert(grown[y] == k);
            }
            assert(after[x].0 == n && after[x].1.contains(k));
        }
    }
    lemma_as_map_by_bucket(listing, after, want);
    assert forall|x: int| 0 <= x < after.len() implies (#[trigger] after[x]).1.no_duplicates() by {
        if x == i {
            assert(listing[i].1.no_duplicates());
        } else {
            assert(listing[x].1.no_duplicates());
        }
    }
    assert forall|x: int, y: int| 0 <= x < y < after.len() implies (#[trigger] after[x]).0 != (
    #[trigger] after[y]).0 by {
        assert(listing[x].0 != listing[y].0);
    }
}

/// A key that the bucket at `i` holds already.
proof fn lemma_bucket_has(listing: Seq<(Seq<char>, Seq<Seq<char>>)>, i: int, key: Seq<char>)
    requires
        0 <= i < listing.len(),
        listing[i].1.contains(key),
    ensures
        as_map(listing) == with_key(as_map(listing), listing[i].0, key),
{
    let name = listing[i].0;
    let m = as_map(listing);
    assert(listing[i].0 == name && listing[i].1.contains(key));
    assert(m.dom().contains(name));
    assert(m[name].contains(key));
    assert(m[name].insert(key) =~= m[name]);
    assert(m =~= with_key(m, name, key));
}

/// A new bucket with one key.
proof fn lemma_bucket_made(listing: Seq<(Seq<char>, Seq<Seq<char>>)>, name: Seq<char>, key: Seq<char>)
    requires
        tidy(listing),
        forall|j: int| 0 <= j < listing.len() ==> (#[trigger] listing[j]).0 != name,
    ensures
        tidy(listing.push((name, seq![key]))),
        as_map(listing.push((name, seq![key]))) == with_key(as_map(listing), name, key),
{
    let after = listing.push((name, seq![key]));
    let m = as_map(listing);
    let m2 = as_map(after);
    let want = with_key(m, name, key);
    let last = listing.len() as int;
    assert(!m.dom().contains(name));
    assert(seq![key][0] == key);
    assert forall|n: Seq<char>| m2.dom().contains(n) <==> want.dom().contains(n) by {
        if m2.dom().contains(n) {
            let x = choose|x: int| 0 <= x < after.len() && (#[trigger] after[x]).0 == n;
            if x < listing.len() {
                assert(listing[x].0 == n);
            }
        }
        if want.dom().contains(n) {
            if n == name {
                assert(after[last].0 == n);
            } else {
                let x = choose|x: int| 0 <= x < listing.len() && (#[trigger] listing[x]).0 == n;
                assert(after[x].0 == n);
            }
        }
    }
    assert forall|n: Seq<char>| #[trigger] m2.dom().contains(n) implies m2[n] =~= want[n] by {
        assert forall|k: Seq<char>| m2[n].contains(k) <==> want[n].contains(k) by {
            if m2[n].contains(k) {
                let x = choose|x: int| 0 <= x < after.len() && (#[trigger] after[x]).0 == n && after[x].1.contains(k);
                if x < listing.len() {
                    assert(listing[x].0 == n && listing[x].1.contains(k));
                }
            }
            if want[n].contains(k) {
                if n == name {
                    assert(after[last].0 == n && after[last].1.contains(k));
                } else {
                    let x = choose|x: int| 0 <= x < listing.len() && (#[trigger] listing[x]).0 == n && listing[x].1.contains(k);
                    assert(after[x].0 == n && after[x].1.contains(k));
                }
            }
        }
    }
    assert(m2 =~= want);
    assert forall|x: int| 0 <= x < after.len() implies (#[trigger] after[x]).1.no_duplicates() by {
        if x < listing.len() {
            assert(listing[x].1.no_duplicates());
        }
    }
    assert forall|x: int, y: int| 0 <= x < y < after.len() implies (#[trigger] after[x]).0 != (
    #[trigger] after[y]).0 by {
        if y < listing.len() {
            assert(listing[x].0 != listing[y].0);
        } else {
            assert(listing[x].0 != name);
        }
    }
}

/// Listings that keep their names and lose `key` from every bucket.
proof fn lemma_key_gone(
    a: Seq<(Seq<char>, Seq<Seq<char>>)>,
    b: Seq<(Seq<char>, Seq<Seq<char>>)>,
    key: Seq<char>,
)
    requires
        a.len() == b.len(),
        forall|i: int| 0 <= i < a.len() ==> (#[trigger] a[i]).0 == (#[trigger] b[i]).0,
        forall|i: int, k: Seq<char>|
            0 <= i < a.len() ==> (#[trigger] b[i].1.contains(k) <==> (a[i].1.contains(k) && k != key)),
    ensures
        as_map(b) == without(as_map(a), key),
{
    let m = as_map(a);
    let want = without(m, key);
    assert(want.dom() =~= m.dom());
    assert forall|i: int, k: Seq<char>| 0 <= i < a.len() && #[trigger] b[i].1.contains(k) implies want[a[i].0].contains(k) by {
        assert(a[i].1.contains(k));
        assert(m[a[i].0].contains(k));
    }
    assert forall|n: Seq<char>, k: Seq<char>| want.dom().contains(n) && #[trigger] want[n].contains(k) implies exists|x: int|
        0 <= x < b.len() && (#[trigger] b[x]).0 == n && b[x].1.contains(k) by {
        assert(m[n].contains(k));
        let x = choose|x: int| 0 <= x < a.len() && (#[trigger] a[x]).0 == n && a[x].1.contains(k);
        assert(b[x].0 == n && b[x].1.contains(k));
    }
    lemma_as_map_by_bucket(a, b, want);
}

/// What leaves a sequence without duplicates when one position is removed.
proof fn lemma_remove_one(s: Seq<Seq<char>>, j: int)
    requires
        s.no_duplicates(),
        0 <= j < s.len(),
    ensures
        s.remove(j).no_duplicates(),
        forall|k: Seq<char>| #[trigger] s.remove(j).contains(k) <==> (s.contains(k) && k != s[j]),
{
    let r = s.remove(j);
    assert forall|k: Seq<char>| #[trigger] r.contains(k) <==> (s.contains(k) && k != s[j]) by {
        if r.contains(k) {
            let y = choose|y: int| 0 <= y < r.len() && r[y] == k;
            if y < j {
                assert(s[y] == k);
            } else {
                assert(s[y + 1] == k);
            }
        }
        if s.contains(k) && k != s[j] {
            let y = choose|y: int| 0 <= y < s.len() && s[y] == k;
            if y < j {
                assert(r[y] == k);
            } else {
                assert(r[y - 1] == k);
            }
        }
    }
    assert forall|x: int, y: int| 0 <= x < r.len() && 0 <= y < r.len() && x != y implies r[x] != r[y] by {
        let x2 = if x < j { x } else { x + 1 };
        let y2 = if y < j { y } else { y + 1 };
        assert(s[x2] != s[y2]);
    }
}

/// The listing of a list of buckets.
spec fn listing_of(buckets: Seq<Bucket>) -> Seq<(Seq<char>, Seq<Seq<char>>)> {
    buckets.map_values(|b: Bucket| b.listing())
}

/// The position of the bucket `name`, if there is one.
fn find(buckets: &Vec<Bucket>, name: &str) -> (found: Option<usize>)
    ensures
        match found {
            Some(i) => i < buckets.len() && listing_of(buckets@)[i as int].0 == name@,
            None => forall|j: int| 0 <= j < buckets.len() ==> (#[trigger] listing_of(buckets@)[j]).0 != name@,
        },
{
    let mut i: usize = 0;
    while i < buckets.len()
        invariant
            i <= buckets.len(),
            forall|j: int| 0 <= j < i ==> (#[trigger] listing_of(buckets@)[j]).0 != name@,
        decreases buckets.len() - i,
    {
        if same_text(buckets[i].name.as_str(), name) {
            return Some(i);
        }
        i += 1;
    }
    None
}

/// Puts `key` into the bucket `name` of a tidy list of buckets.
fn add_to(buckets: &mut Vec<Bucket>, name: &str, key: &str)
    requires
        tidy(listing_of(old(buckets)@)),
    ensures
        tidy(listing_of(final(buckets)@)),
        as_map(listing_of(final(buckets)@)) == with_key(as_map(listing_of(old(buckets)@)), name@, key@),
{
    let ghost before = listing_of(buckets@);
    match find(buckets, name) {
        Some(i) => {
            if position_of(&buckets[i].keys, key).is_none() {
                let ghost keys_before = buckets[i as int].keys.deep_view();
                let k = String::from_str(key);
                buckets[i].keys.push(k);
                assert(buckets[i as int].keys.deep_view() =~= keys_before.push(key@));
                assert(listing_of(buckets@) =~= before.update(i as int, (name@, keys_before.push(key@))));
                proof {
                    lemma_bucket_grows(before, i as int, key@);
                }
            } else {
                proof {
                    lemma_bucket_has(before, i as int, key@);
                }
            }
        },
        None => {
            let k = String::from_str(key);
            let mut keys: Vec<String> = Vec::new();
            keys.push(k);
            assert(keys.deep_view() =~= seq![key@]);
            buckets.push(Bucket { name: String::from_str(name), keys });
            assert(listing_of(buckets@) =~= before.push((name@, seq![key@])));
            proof {
                lemma_bucket_made(before, name@, key@);
            }
        },
    }
}

/// Takes `key` out of every bucket of a tidy list of buckets.
fn remove_from(buckets: &mut Vec<Bucket>, key: &str)
    requires
        tidy(listing_of(old(buckets)@)),
    ensures
        tidy(listing_of(final(buckets)@)),
        as_map(listing_of(final(buckets)@)) == without(as_map(listing_of(old(buckets)@)), key@),
{
    let ghost before = listing_of(buckets@);
    let mut i: usize = 0;
    while i < buckets.len()
        invariant
            i <= buckets.len(),
            before == listing_of(old(buckets)@),
            tidy(before),
            listing_of(buckets@).len() == before.len(),
            forall|x: int| 0 <= x < before.len() ==> (#[trigger] listing_of(buckets@)[x]).0 == (#[trigger] before[x]).0,
            forall|x: int| 0 <= x < before.len() ==> (#[trigger] listing_of(buckets@)[x]).1.no_duplicates(),
            forall|x: int| i <= x < before.len() ==> (#[trigger] listing_of(buckets@)[x]) == before[x],
            forall|x: int, k: Seq<char>|
                0 <= x < i ==> (#[trigger] listing_of(buckets@)[x].1.contains(k) <==> (before[x].1.contains(k) && k
                    != key@)),
        decreases buckets.len() - i,
    {
        let ghost listed = listing_of(buckets@);
        match position_of(&buckets[i].keys, key) {
            Some(j) => {
                let ghost keys_before = buckets[i as int].keys.deep_view();
                let _ = buckets[i].keys.remove(j);
                proof {
                    assert(buckets[i as int].keys.deep_view() =~= keys_before.remove(j as int));
                    assert(listing_of(buckets@) =~= listed.update(
                        i as int,
                        (listed[i as int].0, keys_before.remove(j as int)),
                    ));
                    assert(listed[i as int] == before[i as int]);
                    lemma_remove_one(keys_before, j as int);
                }
            },
            None => {},
        }
        i += 1;
    }
    proof {
        let after = listing_of(buckets@);
        lemma_key_gone(before, after, key@);
        assert forall|x: int, y: int| 0 <= x < y < after.len() implies (#[trigger] after[x]).0 != (
        #[trigger] after[y]).0 by {
            assert(before[x].0 != before[y].0);
        }
    }
}

/// The index. It maps `"<pointer>=<string>"` to a set of keys.
pub struct Index {
    paths: Vec<String>,
    buckets: Vec<Bucket>,
}

impl Index {
    /// No bucket name occurs twice, and no key occurs twice in a bucket.
    #[verifier::type_invariant]
    spec fn tidy(&self) -> bool {
        tidy(listing_of(self.buckets@))
    }

    /// The index as a map from bucket names to sets of keys.
    pub closed spec fn view(&self) -> Map<Seq<char>, Set<Seq<char>>> {
        as_map(listing_of(self.buckets@))
    }

    /// The configured pointers.
    pub closed spec fn pointers(&self) -> Seq<Seq<char>> {
        self.paths.deep_view()
    }

    /// An index without buckets for the pointers `paths`.
    pub fn new(paths: Vec<String>) -> (index: Index)
        ensures
            index@ == Map::<Seq<char>, Set<Seq<char>>>::empty(),
            index.pointers() == paths.deep_view(),
    {
        let index = Index { paths, buckets: Vec::new() };
        assert(index@ =~= Map::<Seq<char>, Set<Seq<char>>>::empty());
        index
    }

    /// Puts `key` into the bucket `index_key` and makes the bucket where it
    /// is missing.
    pub fn add_one(&mut self, index_key: &str, key: &str)
        ensures
            final(self).pointers() == old(self).pointers(),
            final(self)@ == with_key(old(self)@, index_key@, key@),
    {
        proof {
            use_type_invariant(&*self);
        }
        let mut buckets: Vec<Bucket> = Vec::new();
        std::mem::swap(&mut buckets, &mut self.buckets);
        add_to(&mut buckets, index_key, key);
        self.buckets = buckets;
    }

    /// Puts `key` into each of the buckets `index_keys`.
    pub fn add_many(&mut self, key: &str, index_keys: Vec<String>)
        ensures
            final(self).pointers() == old(self).pointers(),
            final(self)@ == with_key_in_all(old(self)@, index_keys.deep_view(), key@),
    {
        let mut i: usize = 0;
        assert(index_keys.deep_view().take(0) =~= Seq::<Seq<char>>::empty());
        while i < index_keys.len()
            invariant
                i <= index_keys.len(),
                self.pointers() == old(self).pointers(),
                self@ == with_key_in_all(old(self)@, index_keys.deep_view().take(i as int), key@),
            decreases index_keys.len() - i,
        {
            proof {
                let next = index_keys.deep_view().take(i + 1);
                assert(next.drop_last() =~= index_keys.deep_view().take(i as int));
                assert(next.last() == index_keys[i as int]@);
            }
            self.add_one(index_keys[i].as_str(), key);
            i += 1;
        }
        assert(index_keys.deep_view().take(index_keys.len() as int) =~= index_keys.deep_view());
    }

    /// Drops every bucket.
    pub fn clear(&mut self)
        ensures
            final(self).pointers() == old(self).pointers(),
            final(self)@ == Map::<Seq<char>, Set<Seq<char>>>::empty(),
    {
        self.buckets = Vec::new();
        assert(self@ =~= Map::<Seq<char>, Set<Seq<char>>>::empty());
    }

    /// Takes `key` out of every bucket. The buckets stay, also the empty ones.
    pub fn remove(&mut self, key: &str)
        ensures
            final(self).pointers() == old(self).pointers(),
            final(self)@ == without(old(self)@, key@),
    {
        proof {
            use_type_invariant(&*self);
        }
        let mut buckets: Vec<Bucket> = Vec::new();
        std::mem::swap(&mut buckets, &mut self.buckets);
        remove_from(&mut buckets, key);
        self.buckets = buckets;
    }

    /// The keys in the bucket `index_key`, each once and in no order that is
    /// promised; nothing where there is no such bucket.
    pub fn get_keys(&self, index_key: &str) -> (keys: Option<Vec<String>>)
        ensures
            match keys {
                Some(keys) => self@.dom().contains(index_key@) && keys.deep_view().no_duplicates()
                    && keys.deep_view().to_set() == self@[index_key@],
                None => !self@.dom().contains(index_key@),
            },
    {
        proof {
            use_type_invariant(self);
        }
        match find(&self.buckets, index_key) {
            Some(i) => {
                let keys = copy_of(&self.buckets[i].keys);
                proof {
                    let listing = listing_of(self.buckets@);
                    assert(listing[i as int].0 == index_key@ && keys.deep_view() == listing[i as int].1);
                    assert(self@.dom().contains(index_key@));
                    assert forall|k: Seq<char>| keys.deep_view().to_set().contains(k) <==> self@[index_key@].contains(
                        k,
                    ) by {
                        if self@[index_key@].contains(k) {
                            let x = choose|x: int|
                                0 <= x < listing.len() && (#[trigger] listing[x]).0 == index_key@
                                    && listing[x].1.contains(k);
                            assert(x == i);
                        }
                    }
                    assert(keys.deep_view().to_set() =~= self@[index_key@]);
                }
                Some(keys)
            },
            None => None,
        }
    }

    /// Looks at the value `val` of `key`, a JSON text, through each configured
    /// pointer. Where a pointer resolves to a string, `key` joins the bucket
    /// of that pointer and string.
    pub fn add_value_checked(&mut self, key: &str, val: &str)
        ensures
            final(self).pointers() == old(self).pointers(),
            final(self)@ == with_value(old(self)@, old(self).pointers(), key@, val@),
    {
        let n = self.paths.len();
        let mut i: usize = 0;
        assert(self.pointers().take(0) =~= Seq::<Seq<char>>::empty());
        while i < n
            invariant
                i <= n,
                n == self.pointers().len(),
                self.pointers() == old(self).pointers(),
                self@ == with_value(old(self)@, self.pointers().take(i as int), key@, val@),
            decreases n - i,
        {
            assert(self.paths@.len() == self.pointers().len());
            proof {
                let next = self.pointers().take(i + 1);
                assert(next.drop_last() =~= self.pointers().take(i as int));
                assert(next.last() == self.paths[i as int]@);
            }
            match pointer_string(val, self.paths[i].as_str()) {
                Some(found) => {
                    let name = bucket_name(self.paths[i].as_str(), found.as_str());
                    self.add_one(name.as_str(), key);
                },
                None => {},
            }
            i += 1;
        }
        assert(self.pointers().take(n as int) =~= self.pointers());
    }

    /// Indexes every entry of `entries` that the store owns.
    pub fn add_entries_checked(&mut self, entries: &IndexMap<String, DBEntry>)
        ensures
            final(self).pointers() == old(self).pointers(),
            final(self)@ == with_entries(old(self)@, old(self).pointers(), pairs(*entries)),
    {
        let n = map_len(entries);
        let mut i: usize = 0;
        assert(pairs(*entries).take(0) =~= Seq::<(Seq<char>, EntryView)>::empty());
        while i < n
            invariant
                i <= n,
                n == pairs(*entries).len(),
                self.pointers() == old(self).pointers(),
                self@ == with_entries(old(self)@, self.pointers(), pairs(*entries).take(i as int)),
            decreases n - i,
        {
            proof {
                let next = pairs(*entries).take(i + 1);
                assert(next.drop_last() =~= pairs(*entries).take(i as int));
                assert(next.last() == pairs(*entries)[i as int]);
            }
            match map_get_index(entries, i) {
                Some((key, DBEntry::Native(text))) => {
                    self.add_value_checked(key.as_str(), text.as_str());
                },
                _ => {},
            }
            i += 1;
        }
        assert(pairs(*entries).take(n as int) =~= pairs(*entries));
    }
}

/// The position of `key` in `keys`, if it is there.
fn position_of(keys: &Vec<String>, key: &str) -> (found: Option<usize>)
    ensures
        match found {
            Some(i) => i < keys.len() && keys.deep_view()[i as int] == key@,
            None => !keys.deep_view().contains(key@),
        },
{
    let mut i: usize = 0;
    while i < keys.len()
        invariant
            i <= keys.len(),
            forall|j: int| 0 <= j < i ==> keys.deep_view()[j] != key@,
        decreases keys.len() - i,
    {
        if same_text(keys[i].as_str(), key) {
            return Some(i);
        }
        i += 1;
    }
    None
}

/// A copy of a list of strings.
pub(crate) fn copy_of(list: &Vec<String>) -> (copy: Vec<String>)
    ensures
        copy.deep_view() == list.deep_view(),
{
    let mut copy: Vec<String> = Vec::new();
    let mut i: usize = 0;
    while i < list.len()
        invariant
            i <= list.len(),
            copy.deep_view() == list.deep_view().take(i as int),
        decreases list.len() - i,
    {
        let ghost before = copy.deep_view();
        let item = list[i].clone();
        copy.push(item);
        assert(copy.deep_view() =~= before.push(item@));
        assert(list.deep_view().take(i + 1) =~= list.deep_view().take(i as int).push(item@));
        i += 1;
    }
    assert(list.deep_view().take(list.len() as int) =~= list.deep_view());
    copy
}

} // verus!
