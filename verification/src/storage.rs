//! The in-memory store: the ordered map of entries and the journal of writes
//! that have not reached the log yet.

use vstd::prelude::*;
use vstd::string::StringExecFns;
use indexmap::IndexMap;
use crate::entry::{DBEntry, EntryView, JournalEntry, JournalView};
use crate::error::{ErrorView, JsonlDBError};
use crate::text::same_text;
use crate::json::{decode_object, decode_string, json_object, json_string, quote, quoted};
use crate::log::{lemma_text_map_put, lemma_text_map_take_out, replay, text_map, Record};
use crate::ordered_map::{
    distinct_keys, has_key, keys_of, lemma_put, lemma_take_out, map_contains_key, map_drain, map_get,
    map_get_index, map_insert, map_len, map_shift_remove, new_map, pairs, put, take_out, value_of,
    viewed,
};

verus! {

/// The line that records an upsert: `{"k":<key as JSON string>,"v":<text>}`.
pub open spec fn upsert_line(key: Seq<char>, text: Seq<char>) -> Seq<char> {
    seq!['{', '"', 'k', '"', ':'] + quoted(key) + seq![',', '"', 'v', '"', ':'] + text + seq!['}']
}

/// The line that records a delete: `{"k":<key as JSON string>}`.
pub open spec fn delete_line(key: Seq<char>) -> Seq<char> {
    seq!['{', '"', 'k', '"', ':'] + quoted(key) + seq!['}']
}

/// Formats the record of an upsert of `key` with the JSON text `val`.
pub fn format_line(key: &str, val: &str) -> (line: String)
    ensures
        line@ == upsert_line(key@, val@),
{
    proof {
        reveal_strlit("{\"k\":");
        reveal_strlit(",\"v\":");
        reveal_strlit("}");
    }
    let mut line = String::from_str("{\"k\":");
    let key_text = quote(key);
    line.append(key_text.as_str());
    line.append(",\"v\":");
    line.append(val);
    line.append("}");
    assert(line@ =~= upsert_line(key@, val@));
    line
}

/// Formats the record of a delete of `key`.
pub fn format_delete(key: &str) -> (line: String)
    ensures
        line@ == delete_line(key@),
{
    proof {
        reveal_strlit("{\"k\":");
        reveal_strlit("}");
    }
    let mut line = String::from_str("{\"k\":");
    let key_text = quote(key);
    line.append(key_text.as_str());
    line.append("}");
    assert(line@ =~= delete_line(key@));
    line
}

/// The line that a journal entry becomes when it is written against the map
/// `entries`: a `Put` takes the value that the map holds now and is left out
/// where the key is gone, a `Delete` is a delete record, and a `Clear` is the
/// empty line, which tells the writer to truncate the log.
pub open spec fn entry_line(entries: Seq<(Seq<char>, EntryView)>, e: JournalView) -> Option<Seq<char>> {
    match e {
        JournalView::Put(key) => match value_of(entries, key) {
            Some(value) => Some(upsert_line(key, value.text())),
            None => None,
        },
        JournalView::Delete(key) => Some(delete_line(key)),
        JournalView::Clear => Some(Seq::empty()),
    }
}

/// The lines of a whole journal, in its order.
pub open spec fn journal_lines(entries: Seq<(Seq<char>, EntryView)>, journal: Seq<JournalView>) -> Seq<Seq<char>>
    decreases journal.len(),
{
    if journal.len() == 0 {
        Seq::empty()
    } else {
        let before = journal_lines(entries, journal.drop_last());
        match entry_line(entries, journal.last()) {
            Some(line) => before.push(line),
            None => before,
        }
    }
}

/// The journal without the `Put` and `Delete` entries of `key`.
pub open spec fn without_key(journal: Seq<JournalView>, key: Seq<char>) -> Seq<JournalView>
    decreases journal.len(),
{
    if journal.len() == 0 {
        Seq::empty()
    } else {
        let before = without_key(journal.drop_last(), key);
        if journal.last().touches(key) {
            before
        } else {
            before.push(journal.last())
        }
    }
}

/// The line of one journal entry, written against `entries`.
pub fn journal_entry_to_string(entries: &IndexMap<String, DBEntry>, j: &JournalEntry) -> (line: Option<String>)
    ensures
        match line {
            Some(l) => entry_line(pairs(*entries), j@) == Some(l@),
            None => entry_line(pairs(*entries), j@) is None,
        },
{
    match j {
        JournalEntry::Put(key) => match map_get(entries, key.as_str()) {
            Some(value) => Some(format_line(key.as_str(), value.text())),
            None => None,
        },
        JournalEntry::Delete(key) => Some(format_delete(key.as_str())),
        JournalEntry::Clear => Some(String::new()),
    }
}

/// The lines of `journal`, written against `entries`.
fn render_journal(entries: &IndexMap<String, DBEntry>, journal: &Vec<JournalEntry>) -> (lines: Vec<String>)
    ensures
        lines.deep_view() == journal_lines(pairs(*entries), journal.deep_view()),
{
    let mut lines: Vec<String> = Vec::new();
    let mut i: usize = 0;
    assert(journal.deep_view().take(0) =~= Seq::<JournalView>::empty());
    while i < journal.len()
        invariant
            i <= journal.len(),
            lines.deep_view() == journal_lines(pairs(*entries), journal.deep_view().take(i as int)),
        decreases journal.len() - i,
    {
        let ghost before = lines.deep_view();
        let line = journal_entry_to_string(entries, &journal[i]);
        proof {
            let next = journal.deep_view().take(i + 1);
            assert(next.drop_last() =~= journal.deep_view().take(i as int));
            assert(next.last() == journal[i as int]@);
        }
        match line {
            Some(l) => {
                lines.push(l);
                assert(lines.deep_view() =~= before.push(l@));
            },
            None => {},
        }
        i += 1;
    }
    assert(journal.deep_view().take(journal.len() as int) =~= journal.deep_view());
    lines
}

/// The map of entries and the journal of pending writes.
pub struct Storage {
    pub entries: IndexMap<String, DBEntry>,
    pub journal: Vec<JournalEntry>,
}

impl Storage {
    /// The entries, in the order of the map.
    pub open spec fn pairs(&self) -> Seq<(Seq<char>, EntryView)> {
        pairs(self.entries)
    }

    /// The pending writes, oldest first.
    pub open spec fn pending(&self) -> Seq<JournalView> {
        self.journal.deep_view()
    }

    /// A store without entries and without pending writes.
    pub fn new() -> (s: Storage)
        ensures
            s.pairs() == Seq::<(Seq<char>, EntryView)>::empty(),
            s.pending() == Seq::<JournalView>::empty(),
    {
        let s = Storage { entries: new_map(), journal: Vec::new() };
        assert(s.pending() =~= Seq::<JournalView>::empty());
        s
    }

    /// Takes the pending `Put` and `Delete` entries of `key` out of the journal.
    fn coalesce(&mut self, key: &String)
        ensures
            final(self).pairs() == old(self).pairs(),
            final(self).pending() == without_key(old(self).pending(), key@),
    {
        let mut kept: Vec<JournalEntry> = Vec::new();
        let mut i: usize = 0;
        assert(self.pending().take(0) =~= Seq::<JournalView>::empty());
        assert(kept.deep_view() =~= Seq::<JournalView>::empty());
        while i < self.journal.len()
            invariant
                i <= self.journal.len(),
                *self == *old(self),
                kept.deep_view() == without_key(self.pending().take(i as int), key@),
            decreases self.journal.len() - i,
        {
            let ghost before = kept.deep_view();
            proof {
                let next = self.pending().take(i + 1);
                assert(next.drop_last() =~= self.pending().take(i as int));
                assert(next.last() == self.journal[i as int]@);
            }
            if !self.journal[i].touches(key) {
                let e = self.journal[i].duplicate();
                kept.push(e);
                assert(kept.deep_view() =~= before.push(e@));
            }
            i += 1;
        }
        assert(self.pending().take(self.journal.len() as int) =~= self.pending());
        self.journal = kept;
    }
}

/// The store as the facade and the persistence loop share it. Every method
/// works on the map and the journal together.
pub struct SharedStorage(pub Storage);

impl SharedStorage {
    /// The entries, in the order of the map.
    pub open spec fn pairs(&self) -> Seq<(Seq<char>, EntryView)> {
        self.0.pairs()
    }

    /// The pending writes, oldest first.
    pub open spec fn pending(&self) -> Seq<JournalView> {
        self.0.pending()
    }

    /// Wraps a store for sharing.
    pub fn new(s: Storage) -> (shared: SharedStorage)
        ensures
            shared.0 == s,
    {
        SharedStorage(s)
    }

    /// Gives access to the store inside.
    pub fn lock(&mut self) -> (storage: &mut Storage)
        ensures
            *storage == old(self).0,
            final(self).0 == *final(storage),
    {
        &mut self.0
    }

    /// The number of entries.
    pub fn len(&self) -> (n: usize)
        ensures
            n == self.pairs().len(),
    {
        map_len(&self.0.entries)
    }

    /// The number of pending writes.
    pub fn journal_len(&self) -> (n: usize)
        ensures
            n == self.pending().len(),
    {
        self.0.journal.len()
    }

    /// Whether the store holds `key`.
    pub fn contains_key(&self, key: &str) -> (found: bool)
        ensures
            found == has_key(self.pairs(), key@),
    {
        map_contains_key(&self.0.entries, key)
    }

    /// The value stored for `key`.
    pub fn get(&self, key: &str) -> (found: Option<&DBEntry>)
        ensures
            match found {
                Some(e) => value_of(self.pairs(), key@) == Some(e@),
                None => value_of(self.pairs(), key@) is None,
            },
    {
        map_get(&self.0.entries, key)
    }

    /// The keys in the order of the map: the order in which they were first
    /// inserted.
    pub fn keys(&self) -> (keys: Vec<String>)
        ensures
            keys.deep_view() == keys_of(self.pairs()),
    {
        let mut keys: Vec<String> = Vec::new();
        let n = map_len(&self.0.entries);
        let mut i: usize = 0;
        while i < n
            invariant
                i <= n,
                n == self.pairs().len(),
                keys.deep_view() == keys_of(self.pairs()).take(i as int),
            decreases n - i,
        {
            let ghost before = keys.deep_view();
            match map_get_index(&self.0.entries, i) {
                Some((key, _)) => {
                    let k = key.clone();
                    keys.push(k);
                    assert(keys.deep_view() =~= before.push(k@));
                    assert(keys_of(self.pairs()).take(i + 1) =~= keys_of(self.pairs()).take(i as int).push(k@));
                },
                None => {},
            }
            i += 1;
        }
        assert(keys_of(self.pairs()).take(n as int) =~= keys_of(self.pairs()));
        keys
    }

    /// Sets `key` to `value` and hands back the value it had. A key that is
    /// there keeps its place in the order, a new key goes to the end. The
    /// pending writes of `key` leave the journal and a `Put` of it is appended.
    pub fn insert(&mut self, key: String, value: DBEntry) -> (previous: Option<DBEntry>)
        ensures
            final(self).pairs() == put(old(self).pairs(), key@, value@),
            final(self).pending() == without_key(old(self).pending(), key@).push(JournalView::Put(key@)),
            viewed(previous) == value_of(old(self).pairs(), key@),
            distinct_keys(old(self).pairs()) ==> distinct_keys(final(self).pairs()),
    {
        proof {
            lemma_put(self.pairs(), key@, value@);
        }
        let previous = map_insert(&mut self.0.entries, key.clone(), value);
        self.0.coalesce(&key);
        let ghost before = self.pending();
        self.0.journal.push(JournalEntry::Put(key));
        assert(self.pending() =~= before.push(JournalView::Put(key@)));
        previous
    }

    /// Deletes `key` and hands back the value it had. The entries behind it
    /// keep their order. The pending writes of `key` leave the journal and a
    /// `Delete` of it is appended, also where the key was not there.
    pub fn remove(&mut self, key: String) -> (previous: Option<DBEntry>)
        ensures
            final(self).pairs() == take_out(old(self).pairs(), key@),
            final(self).pending() == without_key(old(self).pending(), key@).push(JournalView::Delete(key@)),
            viewed(previous) == value_of(old(self).pairs(), key@),
            distinct_keys(old(self).pairs()) ==> distinct_keys(final(self).pairs()),
    {
        proof {
            if distinct_keys(self.pairs()) {
                lemma_take_out(self.pairs(), key@);
            }
        }
        let previous = map_shift_remove(&mut self.0.entries, key.as_str());
        self.0.coalesce(&key);
        let ghost before = self.pending();
        self.0.journal.push(JournalEntry::Delete(key));
        assert(self.pending() =~= before.push(JournalView::Delete(key@)));
        previous
    }

    /// Empties the store and hands back the values it held, in the order of
    /// the map. Whatever was pending is obsolete: the journal holds one
    /// `Clear` afterwards.
    pub fn clear(&mut self) -> (previous: Vec<DBEntry>)
        ensures
            final(self).pairs() == Seq::<(Seq<char>, EntryView)>::empty(),
            final(self).pending() == seq![JournalView::Clear],
            previous.deep_view() == old(self).pairs().map_values(|p: (Seq<char>, EntryView)| p.1),
    {
        let previous = map_drain(&mut self.0.entries);
        self.0.journal.clear();
        self.0.journal.push(JournalEntry::Clear);
        assert(self.pending() =~= seq![JournalView::Clear]);
        previous
    }

    /// Empties the journal and hands back its lines, ready for the writer.
    pub fn drain_journal(&mut self) -> (lines: Vec<String>)
        ensures
            final(self).pairs() == old(self).pairs(),
            final(self).pending() == Seq::<JournalView>::empty(),
            lines.deep_view() == journal_lines(old(self).pairs(), old(self).pending()),
    {
        let lines = render_journal(&self.0.entries, &self.0.journal);
        self.0.journal.clear();
        assert(self.pending() =~= Seq::<JournalView>::empty());
        lines
    }

    /// The lines of the journal, which stays as it is.
    pub fn clone_journal(&self) -> (lines: Vec<String>)
        ensures
            lines.deep_view() == journal_lines(self.pairs(), self.pending()),
    {
        render_journal(&self.0.entries, &self.0.journal)
    }
}

/// A parsed line of the log.
#[derive(Debug)]
pub enum Entry {
    /// An upsert: the key and the JSON text of the value.
    Value { k: String, v: String },
    /// A delete of the key.
    Delete { k: String },
}

impl View for Entry {
    type V = Record;

    open spec fn view(&self) -> Record {
        match self {
            Entry::Value { k, v } => Record::Upsert(k@, v@),
            Entry::Delete { k } => Record::Delete(k@),
        }
    }
}

impl DeepView for Entry {
    type V = Record;

    open spec fn deep_view(&self) -> Record {
        self@
    }
}

/// What the members of an object make of a record: the text of the key and,
/// for an upsert, the text of the value. The members of a record are `k`
/// alone, a delete, or `k` and `v` in either order, an upsert; any other
/// members make no record.
pub open spec fn shape(members: Seq<(Seq<char>, Seq<char>)>) -> Option<(Seq<char>, Option<Seq<char>>)> {
    if members.len() == 1 && members[0].0 == seq!['k'] {
        Some((members[0].1, None))
    } else if members.len() == 2 && members[0].0 == seq!['k'] && members[1].0 == seq!['v'] {
        Some((members[0].1, Some(members[1].1)))
    } else if members.len() == 2 && members[0].0 == seq!['v'] && members[1].0 == seq!['k'] {
        Some((members[1].1, Some(members[0].1)))
    } else {
        None
    }
}

/// The record of a key and, for an upsert, the text of its value.
pub open spec fn record_of(key: Seq<char>, value: Option<Seq<char>>) -> Record {
    match value {
        Some(text) => Record::Upsert(key, text),
        None => Record::Delete(key),
    }
}

/// The record that a line stands for. A line is a record if it is a JSON
/// object whose members have the shape of a record and whose key is a JSON
/// string. Every other line, the empty one too, is none. The members are
/// those of the decoded object, which has every name once: a line that
/// repeats a name counts with the last member of that name.
pub open spec fn line_record(line: Seq<char>) -> Option<Record> {
    match json_object(line) {
        None => None,
        Some(members) => match shape(members) {
            None => None,
            Some((literal, value)) => match json_string(literal) {
                None => None,
                Some(key) => Some(record_of(key, value)),
            },
        },
    }
}

/// Picks the text of the key and of the value out of the members of an
/// object, where the members have the shape of a record.
pub fn member_shape(members: &Vec<(String, String)>) -> (found: Option<(String, Option<String>)>)
    ensures
        found.deep_view() == shape(members.deep_view()),
{
    proof {
        reveal_strlit("k");
        reveal_strlit("v");
    }
    assert("k"@ =~= seq!['k']);
    assert("v"@ =~= seq!['v']);
    let ghost listed = members.deep_view();
    assert(forall|i: int| 0 <= i < members.len() ==> (members[i].0@, members[i].1@) == #[trigger] listed[i]);
    if members.len() == 1 && same_text(members[0].0.as_str(), "k") {
        Some((members[0].1.clone(), None))
    } else if members.len() == 2 && same_text(members[0].0.as_str(), "k") && same_text(
        members[1].0.as_str(),
        "v",
    ) {
        Some((members[0].1.clone(), Some(members[1].1.clone())))
    } else if members.len() == 2 && same_text(members[0].0.as_str(), "v") && same_text(
        members[1].0.as_str(),
        "k",
    ) {
        Some((members[1].1.clone(), Some(members[0].1.clone())))
    } else {
        None
    }
}

/// Makes the entry of a key and, for an upsert, the text of its value.
pub fn entry_of(key: String, value: Option<String>) -> (entry: Entry)
    ensures
        entry@ == record_of(key@, value.deep_view()),
{
    match value {
        Some(v) => Entry::Value { k: key, v },
        None => Entry::Delete { k: key },
    }
}

/// Parses one line of the log.
pub fn parse_line(line: &str) -> (entry: Option<Entry>)
    ensures
        entry.deep_view() == line_record(line@),
{
    let members = match decode_object(line) {
        Some(members) => members,
        None => {
            return None;
        },
    };
    let (literal, value) = match member_shape(&members) {
        Some(found) => found,
        None => {
            return None;
        },
    };
    match decode_string(literal.as_str()) {
        Some(key) => Some(entry_of(key, value)),
        None => None,
    }
}

/// The entries after one more record: an upsert sets the key to a value that
/// the store owns, a delete takes the key out.
pub open spec fn restore_one(entries: Seq<(Seq<char>, EntryView)>, record: Record) -> Seq<(Seq<char>, EntryView)> {
    match record {
        Record::Upsert(key, text) => put(entries, key, EntryView::Native(text)),
        Record::Delete(key) => take_out(entries, key),
    }
}

/// The entries that parsed lines stand for: the records applied in order to
/// the empty map. A line that is no record changes nothing.
pub open spec fn replayed(parsed: Seq<Option<Record>>) -> Seq<(Seq<char>, EntryView)>
    decreases parsed.len(),
{
    if parsed.len() == 0 {
        Seq::empty()
    } else {
        let before = replayed(parsed.drop_last());
        match parsed.last() {
            Some(record) => restore_one(before, record),
            None => before,
        }
    }
}

/// Whether the line at `i` is the first of the parsed lines that is no
/// record.
pub open spec fn first_gap(parsed: Seq<Option<Record>>, i: int) -> bool {
    &&& 0 <= i < parsed.len()
    &&& parsed[i] is None
    &&& forall|j: int| 0 <= j < i ==> (#[trigger] parsed[j]) is Some
}

/// The lines of a log, each parsed.
pub open spec fn parsed_lines(lines: Seq<Seq<char>>) -> Seq<Option<Record>> {
    lines.map_values(|line: Seq<char>| line_record(line))
}

/// The entries that the lines of a log stand for.
pub open spec fn restore(lines: Seq<Seq<char>>) -> Seq<(Seq<char>, EntryView)> {
    replayed(parsed_lines(lines))
}

/// Whether the line at `i` is the first that is no record.
pub open spec fn first_bad_line(lines: Seq<Seq<char>>, i: int) -> bool {
    first_gap(parsed_lines(lines), i)
}

/// Replays parsed lines into a map. With `ignore_read_errors` a line that is
/// no record is skipped. Without it the first such line fails the whole,
/// with its number counted from one.
pub fn replay_entries(parsed: &Vec<Option<Entry>>, ignore_read_errors: bool) -> (result: Result<IndexMap<String, DBEntry>, JsonlDBError>)
    ensures
        match result {
            Ok(entries) => {
                &&& pairs(entries) == replayed(parsed.deep_view())
                &&& distinct_keys(pairs(entries))
                &&& !ignore_read_errors ==> forall|j: int|
                    0 <= j < parsed.len() ==> (#[trigger] parsed.deep_view()[j]) is Some
            },
            Err(e) => {
                &&& !ignore_read_errors
                &&& exists|i: int|
                    first_gap(parsed.deep_view(), i) && e@ == (ErrorView::ParseError { line: Some((i + 1) as usize) })
            },
        },
{
    let mut entries = new_map();
    let ghost all = parsed.deep_view();
    let mut i: usize = 0;
    assert(all.take(0) =~= Seq::<Option<Record>>::empty());
    while i < parsed.len()
        invariant
            i <= parsed.len(),
            all == parsed.deep_view(),
            pairs(entries) == replayed(all.take(i as int)),
            !ignore_read_errors ==> forall|j: int| 0 <= j < i ==> (#[trigger] all[j]) is Some,
        decreases parsed.len() - i,
    {
        proof {
            let next = all.take(i + 1);
            assert(next.drop_last() =~= all.take(i as int));
            assert(next.last() == all[i as int]);
            assert(parsed[i as int].deep_view() == all[i as int]);
        }
        match &parsed[i] {
            Some(Entry::Value { k, v }) => {
                let _ = map_insert(&mut entries, k.clone(), DBEntry::Native(v.clone()));
            },
            Some(Entry::Delete { k }) => {
                let _ = map_shift_remove(&mut entries, k.as_str());
            },
            None => {
                if !ignore_read_errors {
                    assert(first_gap(all, i as int));
                    return Err(JsonlDBError::ParseError { line: Some(i + 1) });
                }
            },
        }
        i += 1;
    }
    assert(all.take(parsed.len() as int) =~= all);
    proof {
        lemma_replayed_distinct(all);
    }
    Ok(entries)
}

/// Replays the lines of a log into a map: each line is parsed, and the
/// parsed lines are replayed.
pub fn parse_entries(lines: &Vec<String>, ignore_read_errors: bool) -> (result: Result<IndexMap<String, DBEntry>, JsonlDBError>)
    ensures
        match result {
            Ok(entries) => {
                &&& pairs(entries) == restore(lines.deep_view())
                &&& distinct_keys(pairs(entries))
                &&& !ignore_read_errors ==> forall|j: int|
                    0 <= j < lines.len() ==> line_record(#[trigger] lines.deep_view()[j]) is Some
            },
            Err(e) => {
                &&& !ignore_read_errors
                &&& exists|i: int|
                    first_bad_line(lines.deep_view(), i) && e@ == (ErrorView::ParseError {
                        line: Some((i + 1) as usize),
                    })
            },
        },
{
    let mut parsed: Vec<Option<Entry>> = Vec::new();
    let mut i: usize = 0;
    while i < lines.len()
        invariant
            i <= lines.len(),
            parsed.deep_view() == parsed_lines(lines.deep_view()).take(i as int),
        decreases lines.len() - i,
    {
        let ghost before = parsed.deep_view();
        let entry = parse_line(lines[i].as_str());
        let ghost record = entry.deep_view();
        parsed.push(entry);
        assert(parsed.deep_view() =~= before.push(record));
        assert(parsed_lines(lines.deep_view()).take(i + 1) =~= parsed_lines(lines.deep_view()).take(i as int).push(
            record,
        ));
        i += 1;
    }
    assert(parsed_lines(lines.deep_view()).take(lines.len() as int) =~= parsed_lines(lines.deep_view()));
    assert(parsed.deep_view() == parsed_lines(lines.deep_view()));
    let result = replay_entries(&parsed, ignore_read_errors);
    proof {
        let all = parsed_lines(lines.deep_view());
        if result is Ok {
            if !ignore_read_errors {
                assert forall|j: int| 0 <= j < lines.len() implies line_record(#[trigger] lines.deep_view()[j]) is Some by {
                    assert(all[j] is Some);
                }
            }
        } else {
            let e = result->Err_0;
            let i = choose|i: int|
                first_gap(all, i) && e@ == (ErrorView::ParseError { line: Some((i + 1) as usize) });
            assert(first_bad_line(lines.deep_view(), i));
        }
    }
    result
}

/// The entries that parsed lines stand for have distinct keys.
pub proof fn lemma_replayed_distinct(parsed: Seq<Option<Record>>)
    ensures
        distinct_keys(replayed(parsed)),
    decreases parsed.len(),
{
    if parsed.len() > 0 {
        lemma_replayed_distinct(parsed.drop_last());
        let before = replayed(parsed.drop_last());
        match parsed.last() {
            Some(Record::Upsert(key, text)) => {
                lemma_put(before, key, EntryView::Native(text));
            },
            Some(Record::Delete(key)) => {
                lemma_take_out(before, key);
            },
            None => {},
        }
    }
}

/// The entries that a log stands for have distinct keys.
pub proof fn lemma_restore_distinct(lines: Seq<Seq<char>>)
    ensures
        distinct_keys(restore(lines)),
{
    lemma_replayed_distinct(parsed_lines(lines));
}

/// The records among parsed lines, in order.
pub open spec fn records_in(parsed: Seq<Option<Record>>) -> Seq<Record>
    decreases parsed.len(),
{
    if parsed.len() == 0 {
        Seq::empty()
    } else {
        let before = records_in(parsed.drop_last());
        match parsed.last() {
            Some(record) => before.push(record),
            None => before,
        }
    }
}

/// The records that the lines of a log stand for, in order; a line that is
/// no record stands for none.
pub open spec fn records_of(lines: Seq<Seq<char>>) -> Seq<Record> {
    records_in(parsed_lines(lines))
}

/// The entries that parsed lines stand for are what their records replay to.
pub proof fn lemma_replayed_replays(parsed: Seq<Option<Record>>)
    ensures
        text_map(replayed(parsed)) == replay(records_in(parsed)),
    decreases parsed.len(),
{
    if parsed.len() == 0 {
        assert(text_map(replayed(parsed)) =~= Map::<Seq<char>, Seq<char>>::empty());
    } else {
        lemma_replayed_replays(parsed.drop_last());
        lemma_replayed_distinct(parsed.drop_last());
        let before = replayed(parsed.drop_last());
        let records = records_in(parsed.drop_last());
        match parsed.last() {
            Some(Record::Upsert(key, text)) => {
                lemma_text_map_put(before, key, EntryView::Native(text));
                assert(records.push(Record::Upsert(key, text)).drop_last() =~= records);
            },
            Some(Record::Delete(key)) => {
                lemma_text_map_take_out(before, key);
                assert(records.push(Record::Delete(key)).drop_last() =~= records);
            },
            None => {},
        }
    }
}

/// The entries that an open reads from a log are what the records of the log
/// replay to.
pub proof fn lemma_restore_replays(lines: Seq<Seq<char>>)
    ensures
        text_map(restore(lines)) == replay(records_of(lines)),
{
    lemma_replayed_replays(parsed_lines(lines));
}

impl SharedStorage {
    /// Empties the journal and hands back its lines if `predicate` says so
    /// of the journal. Otherwise nothing changes and no line comes back.
    pub fn drain_journal_if<F: Fn(&Vec<JournalEntry>) -> bool>(&mut self, predicate: F) -> (lines: Vec<String>)
        requires
            call_requires(predicate, (&old(self).0.journal,)),
        ensures
            final(self).pairs() == old(self).pairs(),
            ({
                ||| {
                    &&& call_ensures(predicate, (&old(self).0.journal,), true)
                    &&& final(self).pending() == Seq::<JournalView>::empty()
                    &&& lines.deep_view() == journal_lines(old(self).pairs(), old(self).pending())
                }
                ||| {
                    &&& call_ensures(predicate, (&old(self).0.journal,), false)
                    &&& final(self).pending() == old(self).pending()
                    &&& lines.deep_view() == Seq::<Seq<char>>::empty()
                }
            }),
    {
        if !predicate(&self.0.journal) {
            let lines: Vec<String> = Vec::new();
            assert(lines.deep_view() =~= Seq::<Seq<char>>::empty());
            return lines;
        }
        self.drain_journal()
    }
}

} // verus!
