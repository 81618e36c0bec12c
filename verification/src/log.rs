//! The log as a sequence of records, and what the journal means for it.
//!
//! Everything here is ghost code: the records that lines stand for, the
//! map that a log replays to, and the laws that tie the journal of the store
//! to its log.

use vstd::prelude::*;
use vstd::set_lib::lemma_len_subset;
use crate::entry::{EntryView, JournalView};
use crate::ordered_map::{
    distinct_keys, has_key, lemma_put, lemma_take_out, position, put, take_out, value_of,
};
use crate::storage::{delete_line, journal_lines, upsert_line, without_key};

verus! {

/// One record of the log.
pub enum Record {
    /// The key has the value with this JSON text.
    Upsert(Seq<char>, Seq<char>),
    /// The key has no value.
    Delete(Seq<char>),
}

/// What the writer does with one line of a drained journal.
pub enum WriteOp {
    /// Cut the log back to nothing.
    Truncate,
    /// Append a record.
    Append(Record),
}

/// The line that the writer gets for an operation. The empty line stands for
/// the truncation; no record has an empty line.
pub open spec fn op_line(op: WriteOp) -> Seq<char> {
    match op {
        WriteOp::Truncate => Seq::empty(),
        WriteOp::Append(Record::Upsert(key, text)) => upsert_line(key, text),
        WriteOp::Append(Record::Delete(key)) => delete_line(key),
    }
}

/// The map after one more record.
pub open spec fn replay_one(map: Map<Seq<char>, Seq<char>>, record: Record) -> Map<Seq<char>, Seq<char>> {
    match record {
        Record::Upsert(key, text) => map.insert(key, text),
        Record::Delete(key) => map.remove(key),
    }
}

/// The map that a log stands for: its records applied in order to the empty
/// map.
pub open spec fn replay(log: Seq<Record>) -> Map<Seq<char>, Seq<char>>
    decreases log.len(),
{
    if log.len() == 0 {
        Map::empty()
    } else {
        replay_one(replay(log.drop_last()), log.last())
    }
}

/// The log after one operation of the writer.
pub open spec fn written_one(log: Seq<Record>, op: WriteOp) -> Seq<Record> {
    match op {
        WriteOp::Truncate => Seq::empty(),
        WriteOp::Append(record) => log.push(record),
    }
}

/// The log after the writer went through `ops` in order.
pub open spec fn written(log: Seq<Record>, ops: Seq<WriteOp>) -> Seq<Record>
    decreases ops.len(),
{
    if ops.len() == 0 {
        log
    } else {
        written_one(written(log, ops.drop_last()), ops.last())
    }
}

/// The operation that a journal entry becomes when it is written against
/// `entries`; none for a `Put` whose key is gone.
pub open spec fn entry_op(entries: Seq<(Seq<char>, EntryView)>, e: JournalView) -> Option<WriteOp> {
    match e {
        JournalView::Put(key) => match value_of(entries, key) {
            Some(value) => Some(WriteOp::Append(Record::Upsert(key, value.text()))),
            None => None,
        },
        JournalView::Delete(key) => Some(WriteOp::Append(Record::Delete(key))),
        JournalView::Clear => Some(WriteOp::Truncate),
    }
}

/// The operations of a whole journal, in its order.
pub open spec fn journal_ops(entries: Seq<(Seq<char>, EntryView)>, journal: Seq<JournalView>) -> Seq<WriteOp>
    decreases journal.len(),
{
    if journal.len() == 0 {
        Seq::empty()
    } else {
        let before = journal_ops(entries, journal.drop_last());
        match entry_op(entries, journal.last()) {
            Some(op) => before.push(op),
            None => before,
        }
    }
}

/// The entries of the store as a map from keys to JSON texts.
pub open spec fn text_map(entries: Seq<(Seq<char>, EntryView)>) -> Map<Seq<char>, Seq<char>> {
    Map::new(
        |key: Seq<char>| has_key(entries, key),
        |key: Seq<char>| entries[position(entries, key)].1.text(),
    )
}

/// The journal is equivalent to the difference between the log and the
/// store: writing it to `log` gives a log that replays to the entries.
pub open spec fn journal_equivalent(
    log: Seq<Record>,
    entries: Seq<(Seq<char>, EntryView)>,
    journal: Seq<JournalView>,
) -> bool {
    replay(written(log, journal_ops(entries, journal))) == text_map(entries)
}

/// The lines that the store hands to the writer are the lines of the
/// journal's operations.
pub proof fn lemma_journal_lines_are_op_lines(entries: Seq<(Seq<char>, EntryView)>, journal: Seq<JournalView>)
    ensures
        journal_lines(entries, journal) == journal_ops(entries, journal).map_values(|op: WriteOp| op_line(op)),
    decreases journal.len(),
{
    let ops = journal_ops(entries, journal);
    let lines = journal_lines(entries, journal);
    if journal.len() == 0 {
        assert(lines =~= ops.map_values(|op: WriteOp| op_line(op)));
    } else {
        lemma_journal_lines_are_op_lines(entries, journal.drop_last());
        assert(lines =~= ops.map_values(|op: WriteOp| op_line(op)));
    }
}

/// Setting a key in the store sets it in the map of texts.
pub proof fn lemma_text_map_put(entries: Seq<(Seq<char>, EntryView)>, key: Seq<char>, value: EntryView)
    ensures
        text_map(put(entries, key, value)) == text_map(entries).insert(key, value.text()),
{
    lemma_put(entries, key, value);
    let after = put(entries, key, value);
    assert forall|k: Seq<char>| text_map(after).dom().contains(k) <==> text_map(entries).insert(key, value.text()).dom().contains(k) by {
        if k != key {
            assert(value_of(after, k) == value_of(entries, k));
        }
    }
    assert forall|k: Seq<char>| #[trigger] text_map(after).dom().contains(k) implies text_map(after)[k] == text_map(entries).insert(key, value.text())[k] by {
        if k != key {
            assert(value_of(after, k) == value_of(entries, k));
        }
    }
    assert(text_map(after) =~= text_map(entries).insert(key, value.text()));
}

/// Taking a key out of the store takes it out of the map of texts.
pub proof fn lemma_text_map_take_out(entries: Seq<(Seq<char>, EntryView)>, key: Seq<char>)
    requires
        distinct_keys(entries),
    ensures
        text_map(take_out(entries, key)) == text_map(entries).remove(key),
{
    lemma_take_out(entries, key);
    let after = take_out(entries, key);
    assert forall|k: Seq<char>| text_map(after).dom().contains(k) <==> text_map(entries).remove(key).dom().contains(k) by {
        if k != key {
            assert(value_of(after, k) == value_of(entries, k));
        }
    }
    assert forall|k: Seq<char>| #[trigger] text_map(after).dom().contains(k) implies text_map(after)[k] == text_map(entries).remove(key)[k] by {
        if k != key {
            assert(value_of(after, k) == value_of(entries, k));
        }
    }
    assert(text_map(after) =~= text_map(entries).remove(key));
}

/// Two maps that hold the same for every key but `key`.
pub open spec fn same_but(a: Map<Seq<char>, Seq<char>>, b: Map<Seq<char>, Seq<char>>, key: Seq<char>) -> bool {
    forall|k: Seq<char>|
        k != key ==> (#[trigger] a.dom().contains(k) == b.dom().contains(k)) && (a.dom().contains(k) ==> a[k]
            == b[k])
}

/// Whether no entry of the journal is a `Put` or a `Delete` of `key`.
pub open spec fn untouched(journal: Seq<JournalView>, key: Seq<char>) -> bool {
    forall|i: int| 0 <= i < journal.len() ==> !(#[trigger] journal[i]).touches(key)
}

/// What is left of a journal without a key does not touch the key.
pub proof fn lemma_without_key_untouched(journal: Seq<JournalView>, key: Seq<char>)
    ensures
        untouched(without_key(journal, key), key),
    decreases journal.len(),
{
    if journal.len() > 0 {
        lemma_without_key_untouched(journal.drop_last(), key);
    }
}

/// The operations of a journal depend on the entries only through the keys
/// that the journal touches.
pub proof fn lemma_ops_of_untouched(
    a: Seq<(Seq<char>, EntryView)>,
    b: Seq<(Seq<char>, EntryView)>,
    journal: Seq<JournalView>,
    key: Seq<char>,
)
    requires
        untouched(journal, key),
        forall|other: Seq<char>| other != key ==> #[trigger] value_of(a, other) == value_of(b, other),
    ensures
        journal_ops(a, journal) == journal_ops(b, journal),
    decreases journal.len(),
{
    if journal.len() > 0 {
        let before = journal.drop_last();
        assert forall|i: int| 0 <= i < before.len() implies !(#[trigger] before[i]).touches(key) by {
            assert(before[i] == journal[i]);
        }
        lemma_ops_of_untouched(a, b, before, key);
        let e = journal.last();
        assert(e == journal[journal.len() - 1]);
        assert(!e.touches(key));
        match e {
            JournalView::Put(k) => {
                assert(value_of(a, k) == value_of(b, k));
            },
            _ => {},
        }
    }
}

/// Leaving the pending writes of one key out changes what the log replays to
/// for that key only.
pub proof fn lemma_without_key_replay(
    log: Seq<Record>,
    entries: Seq<(Seq<char>, EntryView)>,
    journal: Seq<JournalView>,
    key: Seq<char>,
)
    ensures
        same_but(
            replay(written(log, journal_ops(entries, without_key(journal, key)))),
            replay(written(log, journal_ops(entries, journal))),
            key,
        ),
    decreases journal.len(),
{
    if journal.len() > 0 {
        let before = journal.drop_last();
        let e = journal.last();
        lemma_without_key_replay(log, entries, before, key);
        let full0 = written(log, journal_ops(entries, before));
        let part0 = written(log, journal_ops(entries, without_key(before, key)));
        let full = written(log, journal_ops(entries, journal));
        let part = written(log, journal_ops(entries, without_key(journal, key)));
        match entry_op(entries, e) {
            Some(op) => {
                assert(journal_ops(entries, journal).drop_last() =~= journal_ops(entries, before));
                assert(full == written_one(full0, op));
                if e.touches(key) {
                    assert(part == part0);
                    match op {
                        WriteOp::Append(record) => {
                            assert(full.drop_last() =~= full0);
                            assert(replay(full) == replay_one(replay(full0), record));
                        },
                        WriteOp::Truncate => {},
                    }
                } else {
                    assert(without_key(journal, key) == without_key(before, key).push(e));
                    assert(without_key(journal, key).drop_last() =~= without_key(before, key));
                    assert(journal_ops(entries, without_key(journal, key)).drop_last() =~= journal_ops(entries, without_key(before, key)));
                    assert(part == written_one(part0, op));
                    match op {
                        WriteOp::Append(record) => {
                            assert(full.drop_last() =~= full0);
                            assert(part.drop_last() =~= part0);
                            assert(replay(full) == replay_one(replay(full0), record));
                            assert(replay(part) == replay_one(replay(part0), record));
                        },
                        WriteOp::Truncate => {},
                    }
                }
            },
            None => {
                assert(full == full0);
                if e.touches(key) {
                    assert(part == part0);
                } else {
                    assert(without_key(journal, key).drop_last() =~= without_key(before, key));
                    assert(part == part0);
                }
            },
        }
    }
}

/// The journal stays equivalent when a key is set: the contract of `insert`
/// turns a store whose journal is equivalent into one whose journal is.
pub proof fn lemma_insert_keeps_journal_equivalent(
    log: Seq<Record>,
    entries: Seq<(Seq<char>, EntryView)>,
    journal: Seq<JournalView>,
    key: Seq<char>,
    value: EntryView,
)
    requires
        journal_equivalent(log, entries, journal),
    ensures
        journal_equivalent(
            log,
            put(entries, key, value),
            without_key(journal, key).push(JournalView::Put(key)),
        ),
{
    let after = put(entries, key, value);
    let kept = without_key(journal, key);
    let pending = kept.push(JournalView::Put(key));
    lemma_put(entries, key, value);
    lemma_without_key_untouched(journal, key);
    lemma_ops_of_untouched(after, entries, kept, key);
    lemma_without_key_replay(log, entries, journal, key);
    lemma_text_map_put(entries, key, value);
    assert(pending.drop_last() =~= kept);
    let record = Record::Upsert(key, value.text());
    assert(journal_ops(after, pending) == journal_ops(after, kept).push(WriteOp::Append(record)));
    let part = written(log, journal_ops(entries, kept));
    assert(journal_ops(after, pending).drop_last() =~= journal_ops(after, kept));
    assert(written(log, journal_ops(after, pending)) == part.push(record));
    assert(part.push(record).drop_last() =~= part);
    let got = replay(part.push(record));
    assert(got == replay(part).insert(key, value.text()));
    assert(got =~= text_map(after));
}

/// The journal stays equivalent when a key is deleted.
pub proof fn lemma_remove_keeps_journal_equivalent(
    log: Seq<Record>,
    entries: Seq<(Seq<char>, EntryView)>,
    journal: Seq<JournalView>,
    key: Seq<char>,
)
    requires
        distinct_keys(entries),
        journal_equivalent(log, entries, journal),
    ensures
        journal_equivalent(
            log,
            take_out(entries, key),
            without_key(journal, key).push(JournalView::Delete(key)),
        ),
{
    let after = take_out(entries, key);
    let kept = without_key(journal, key);
    let pending = kept.push(JournalView::Delete(key));
    lemma_take_out(entries, key);
    lemma_without_key_untouched(journal, key);
    lemma_ops_of_untouched(after, entries, kept, key);
    lemma_without_key_replay(log, entries, journal, key);
    lemma_text_map_take_out(entries, key);
    assert(pending.drop_last() =~= kept);
    let record = Record::Delete(key);
    assert(journal_ops(after, pending) == journal_ops(after, kept).push(WriteOp::Append(record)));
    let part = written(log, journal_ops(entries, kept));
    assert(journal_ops(after, pending).drop_last() =~= journal_ops(after, kept));
    assert(written(log, journal_ops(after, pending)) == part.push(record));
    assert(part.push(record).drop_last() =~= part);
    let got = replay(part.push(record));
    assert(got == replay(part).remove(key));
    assert(got =~= text_map(after));
}

/// The journal is equivalent after the store was cleared, whatever the log
/// holds.
pub proof fn lemma_clear_makes_journal_equivalent(log: Seq<Record>)
    ensures
        journal_equivalent(log, Seq::empty(), seq![JournalView::Clear]),
{
    let entries = Seq::<(Seq<char>, EntryView)>::empty();
    let journal = seq![JournalView::Clear];
    assert(journal.drop_last() =~= Seq::<JournalView>::empty());
    assert(journal.last() == JournalView::Clear);
    assert(journal_ops(entries, journal.drop_last()) =~= Seq::<WriteOp>::empty());
    assert(entry_op(entries, JournalView::Clear) == Some(WriteOp::Truncate));
    let ops = journal_ops(entries, journal);
    assert(ops =~= seq![WriteOp::Truncate]);
    assert(ops.last() == WriteOp::Truncate);
    assert(written(log, ops) =~= Seq::<Record>::empty());
    assert(text_map(entries) =~= Map::<Seq<char>, Seq<char>>::empty());
}

/// The journal is equivalent right after it was written: with the lines of
/// the journal in the log, the empty journal is equivalent.
pub proof fn lemma_drain_keeps_journal_equivalent(
    log: Seq<Record>,
    entries: Seq<(Seq<char>, EntryView)>,
    journal: Seq<JournalView>,
)
    requires
        journal_equivalent(log, entries, journal),
    ensures
        journal_equivalent(written(log, journal_ops(entries, journal)), entries, Seq::empty()),
{
}

/// One change of the store.
pub enum Change {
    /// The key was set to the value.
    Insert(Seq<char>, EntryView),
    /// The key was deleted.
    Remove(Seq<char>),
    /// The store was cleared.
    Clear,
}

/// The entries and the journal after one change, as the contracts of
/// `insert`, `remove` and `clear` give them.
pub open spec fn changed(
    state: (Seq<(Seq<char>, EntryView)>, Seq<JournalView>),
    change: Change,
) -> (Seq<(Seq<char>, EntryView)>, Seq<JournalView>) {
    match change {
        Change::Insert(key, value) => (
            put(state.0, key, value),
            without_key(state.1, key).push(JournalView::Put(key)),
        ),
        Change::Remove(key) => (
            take_out(state.0, key),
            without_key(state.1, key).push(JournalView::Delete(key)),
        ),
        Change::Clear => (Seq::empty(), seq![JournalView::Clear]),
    }
}

/// The entries and the journal after the changes, in order.
pub open spec fn changed_all(
    state: (Seq<(Seq<char>, EntryView)>, Seq<JournalView>),
    changes: Seq<Change>,
) -> (Seq<(Seq<char>, EntryView)>, Seq<JournalView>)
    decreases changes.len(),
{
    if changes.len() == 0 {
        state
    } else {
        changed(changed_all(state, changes.drop_last()), changes.last())
    }
}

/// The keys that the changes set or delete.
pub open spec fn keys_touched(changes: Seq<Change>) -> Set<Seq<char>>
    decreases changes.len(),
{
    if changes.len() == 0 {
        Set::empty()
    } else {
        let before = keys_touched(changes.drop_last());
        match changes.last() {
            Change::Insert(key, _) => before.insert(key),
            Change::Remove(key) => before.insert(key),
            Change::Clear => before,
        }
    }
}

/// The number of times that the changes clear the store.
pub open spec fn clears(changes: Seq<Change>) -> nat
    decreases changes.len(),
{
    if changes.len() == 0 {
        0
    } else {
        let before = clears(changes.drop_last());
        match changes.last() {
            Change::Clear => before + 1,
            _ => before,
        }
    }
}

/// The keys of the `Put` and `Delete` entries of a journal, in its order.
pub open spec fn journal_keys(journal: Seq<JournalView>) -> Seq<Seq<char>>
    decreases journal.len(),
{
    if journal.len() == 0 {
        Seq::empty()
    } else {
        let before = journal_keys(journal.drop_last());
        match journal.last() {
            JournalView::Put(key) => before.push(key),
            JournalView::Delete(key) => before.push(key),
            JournalView::Clear => before,
        }
    }
}

/// The number of `Clear` entries of a journal.
pub open spec fn clear_count(journal: Seq<JournalView>) -> nat
    decreases journal.len(),
{
    if journal.len() == 0 {
        0
    } else {
        let before = clear_count(journal.drop_last());
        match journal.last() {
            JournalView::Clear => before + 1,
            _ => before,
        }
    }
}

/// Every entry of a journal has a key or is a `Clear`.
proof fn lemma_journal_len(journal: Seq<JournalView>)
    ensures
        journal.len() == journal_keys(journal).len() + clear_count(journal),
    decreases journal.len(),
{
    if journal.len() > 0 {
        lemma_journal_len(journal.drop_last());
    }
}

/// A journal gives at most one line for each of its entries.
pub proof fn lemma_lines_at_most_entries(entries: Seq<(Seq<char>, EntryView)>, journal: Seq<JournalView>)
    ensures
        journal_lines(entries, journal).len() <= journal.len(),
    decreases journal.len(),
{
    if journal.len() > 0 {
        lemma_lines_at_most_entries(entries, journal.drop_last());
    }
}

/// What is left of a journal without a key: the other keys, in their order,
/// and as many `Clear` entries as before.
proof fn lemma_without_key_keys(journal: Seq<JournalView>, key: Seq<char>)
    ensures
        forall|k: Seq<char>|
            #[trigger] journal_keys(without_key(journal, key)).contains(k) <==> (journal_keys(journal).contains(k)
                && k != key),
        journal_keys(journal).no_duplicates() ==> journal_keys(without_key(journal, key)).no_duplicates(),
        clear_count(without_key(journal, key)) == clear_count(journal),
    decreases journal.len(),
{
    if journal.len() > 0 {
        let before = journal.drop_last();
        let e = journal.last();
        lemma_without_key_keys(before, key);
        let kept0 = without_key(before, key);
        let kept = without_key(journal, key);
        let keys0 = journal_keys(before);
        let keys = journal_keys(journal);
        match e {
            JournalView::Clear => {
                assert(kept == kept0.push(e));
                assert(kept.drop_last() =~= kept0);
                assert(journal_keys(kept) == journal_keys(kept0));
            },
            _ => {
                let k2 = match e {
                    JournalView::Put(k) => k,
                    JournalView::Delete(k) => k,
                    JournalView::Clear => key,
                };
                assert(keys == keys0.push(k2));
                lemma_push_contains(keys0, k2);
                if k2 == key {
                    assert(kept == kept0);
                    if keys.no_duplicates() {
                        lemma_push_distinct(keys0, k2);
                    }
                } else {
                    assert(kept == kept0.push(e));
                    assert(kept.drop_last() =~= kept0);
                    assert(journal_keys(kept) == journal_keys(kept0).push(k2));
                    lemma_push_contains(journal_keys(kept0), k2);
                    if keys.no_duplicates() {
                        lemma_push_distinct(keys0, k2);
                        lemma_push_distinct(journal_keys(kept0), k2);
                    }
                }
            },
        }
    }
}

/// What a sequence with one more item holds.
proof fn lemma_push_contains(s: Seq<Seq<char>>, x: Seq<char>)
    ensures
        forall|k: Seq<char>| #[trigger] s.push(x).contains(k) <==> (s.contains(k) || k == x),
{
    assert forall|k: Seq<char>| #[trigger] s.push(x).contains(k) <==> (s.contains(k) || k == x) by {
        if s.push(x).contains(k) {
            let i = choose|i: int| 0 <= i < s.push(x).len() && s.push(x)[i] == k;
            if i < s.len() {
                assert(s[i] == k);
            }
        }
        if s.contains(k) {
            let i = choose|i: int| 0 <= i < s.len() && s[i] == k;
            assert(s.push(x)[i] == k);
        }
        if k == x {
            assert(s.push(x)[s.len() as int] == k);
        }
    }
}

/// A sequence with one more item has no duplicates if and only if it had
/// none and did not hold the item.
proof fn lemma_push_distinct(s: Seq<Seq<char>>, x: Seq<char>)
    ensures
        s.push(x).no_duplicates() <==> (s.no_duplicates() && !s.contains(x)),
{
    let t = s.push(x);
    if t.no_duplicates() {
        assert forall|i: int, j: int| 0 <= i < s.len() && 0 <= j < s.len() && i != j implies s[i] != s[j] by {
            assert(t[i] != t[j]);
        }
        if s.contains(x) {
            let i = choose|i: int| 0 <= i < s.len() && s[i] == x;
            assert(t[i] == t[s.len() as int]);
        }
    }
    if s.no_duplicates() && !s.contains(x) {
        assert forall|i: int, j: int| 0 <= i < t.len() && 0 <= j < t.len() && i != j implies t[i] != t[j] by {
            if i < s.len() && j < s.len() {
                assert(s[i] != s[j]);
            } else if i < s.len() {
                assert(s[i] != x);
            } else {
                assert(s[j] != x);
            }
        }
    }
}

/// The keys that changes touch are finitely many.
proof fn lemma_keys_touched_finite(changes: Seq<Change>)
    ensures
        keys_touched(changes).finite(),
    decreases changes.len(),
{
    if changes.len() > 0 {
        lemma_keys_touched_finite(changes.drop_last());
    }
}

/// What holds of a journal that grew from an empty one by the changes: no
/// key occurs twice in it, every key in it was touched, and it holds at most
/// one `Clear`, and none unless the store was cleared.
proof fn lemma_journal_after_changes(entries: Seq<(Seq<char>, EntryView)>, changes: Seq<Change>)
    ensures
        ({
            let journal = changed_all((entries, Seq::empty()), changes).1;
            &&& journal_keys(journal).no_duplicates()
            &&& forall|k: Seq<char>| journal_keys(journal).contains(k) ==> #[trigger] keys_touched(changes).contains(k)
            &&& clear_count(journal) <= clears(changes)
            &&& clear_count(journal) <= 1
        }),
    decreases changes.len(),
{
    let start = (entries, Seq::<JournalView>::empty());
    if changes.len() > 0 {
        let first = changes.drop_last();
        lemma_journal_after_changes(entries, first);
        let before = changed_all(start, first).1;
        let after = changed_all(start, changes).1;
        match changes.last() {
            Change::Clear => {
                assert(after == seq![JournalView::Clear]);
                assert(after.drop_last() =~= Seq::<JournalView>::empty());
                assert(after.last() == JournalView::Clear);
                assert(journal_keys(after.drop_last()) =~= Seq::<Seq<char>>::empty());
                assert(journal_keys(after) =~= Seq::<Seq<char>>::empty());
                assert(clear_count(after.drop_last()) == 0);
            },
            _ => {
                let key = match changes.last() {
                    Change::Insert(k, _) => k,
                    Change::Remove(k) => k,
                    Change::Clear => Seq::empty(),
                };
                let e = match changes.last() {
                    Change::Insert(k, _) => JournalView::Put(k),
                    _ => JournalView::Delete(key),
                };
                let kept = without_key(before, key);
                assert(after == kept.push(e));
                assert(after.drop_last() =~= kept);
                lemma_without_key_keys(before, key);
                assert(journal_keys(after) == journal_keys(kept).push(key));
                lemma_push_contains(journal_keys(kept), key);
                lemma_push_distinct(journal_keys(kept), key);
                assert forall|k: Seq<char>| journal_keys(after).contains(k) implies #[trigger] keys_touched(
                    changes,
                ).contains(k) by {
                    if k != key {
                        assert(journal_keys(before).contains(k));
                        assert(keys_touched(first).contains(k));
                    }
                }
            },
        }
    } else {
        assert(journal_keys(Seq::<JournalView>::empty()) =~= Seq::<Seq<char>>::empty());
    }
}

/// Coalescing: whatever changes a store went through since its journal was
/// last drained, the next drain hands out at most one line for each key that
/// was touched and one for each time the store was cleared.
pub proof fn lemma_coalescing(entries: Seq<(Seq<char>, EntryView)>, changes: Seq<Change>)
    ensures
        ({
            let after = changed_all((entries, Seq::empty()), changes);
            journal_lines(after.0, after.1).len() <= keys_touched(changes).len() + clears(changes)
        }),
{
    let after = changed_all((entries, Seq::<JournalView>::empty()), changes);
    let journal = after.1;
    lemma_journal_after_changes(entries, changes);
    lemma_journal_len(journal);
    lemma_lines_at_most_entries(after.0, journal);
    lemma_keys_touched_finite(changes);
    let keys = journal_keys(journal);
    keys.unique_seq_to_set();
    assert(keys.to_set().subset_of(keys_touched(changes))) by {
        assert forall|k: Seq<char>| keys.to_set().contains(k) implies keys_touched(changes).contains(k) by {
            assert(keys.contains(k));
        }
    }
    lemma_len_subset(keys.to_set(), keys_touched(changes));
}

/// Changes keep the keys of a store distinct.
pub proof fn lemma_changes_keep_distinct(
    state: (Seq<(Seq<char>, EntryView)>, Seq<JournalView>),
    changes: Seq<Change>,
)
    requires
        distinct_keys(state.0),
    ensures
        distinct_keys(changed_all(state, changes).0),
    decreases changes.len(),
{
    if changes.len() > 0 {
        lemma_changes_keep_distinct(state, changes.drop_last());
        let before = changed_all(state, changes.drop_last());
        match changes.last() {
            Change::Insert(key, value) => {
                lemma_put(before.0, key, value);
            },
            Change::Remove(key) => {
                lemma_take_out(before.0, key);
            },
            Change::Clear => {},
        }
    }
}

/// Journal equivalence: whatever changes a store goes through, its journal
/// stays equivalent to the difference between its log and its entries.
pub proof fn lemma_changes_keep_journal_equivalent(
    log: Seq<Record>,
    state: (Seq<(Seq<char>, EntryView)>, Seq<JournalView>),
    changes: Seq<Change>,
)
    requires
        distinct_keys(state.0),
        journal_equivalent(log, state.0, state.1),
    ensures
        journal_equivalent(log, changed_all(state, changes).0, changed_all(state, changes).1),
    decreases changes.len(),
{
    if changes.len() > 0 {
        lemma_changes_keep_journal_equivalent(log, state, changes.drop_last());
        lemma_changes_keep_distinct(state, changes.drop_last());
        let before = changed_all(state, changes.drop_last());
        match changes.last() {
            Change::Insert(key, value) => {
                lemma_insert_keeps_journal_equivalent(log, before.0, before.1, key, value);
            },
            Change::Remove(key) => {
                lemma_remove_keeps_journal_equivalent(log, before.0, before.1, key);
            },
            Change::Clear => {
                lemma_clear_makes_journal_equivalent(log);
            },
        }
    }
}

/// Replay fidelity: a store that was opened over a log, went through any
/// changes and had its journal written to the log, has a log that replays
/// to its entries.
pub proof fn lemma_replay_fidelity(log: Seq<Record>, entries: Seq<(Seq<char>, EntryView)>, changes: Seq<Change>)
    requires
        distinct_keys(entries),
        replay(log) == text_map(entries),
    ensures
        ({
            let after = changed_all((entries, Seq::empty()), changes);
            replay(written(log, journal_ops(after.0, after.1))) == text_map(after.0)
        }),
{
    lemma_changes_keep_journal_equivalent(log, (entries, Seq::empty()), changes);
}

} // verus!
