//! The store in its three states: closed, opened and half closed.

use vstd::prelude::*;
use vstd::string::StringExecFns;
use crate::bg_thread::{Command, CommandView, Wake};
use crate::persistence::{Action, Persistence};
use crate::db_options::{DBOptions, DBOptionsView};
use crate::entry::{DBEntry, EntryView, JournalView};
use crate::error::{serialize_failed_reason, ErrorView, JsonlDBError};
use crate::files::{recovery, recovery_steps, FileProbe, FileStep};
use crate::index::{
    copy_of, lemma_bind_matches, lemma_delete_matches, lemma_set_native_matches,
    lemma_set_reference_matches, lemma_with_entries, lemma_with_entries_only, agrees, with_entries,
    with_key_in_all, with_value, without, Index,
};
use crate::js_values::{JsValue, JsValueView};
use crate::lockfile::{checked, lock_outcome, LockAction, LockProbe, Lockfile};
use crate::text::{lex_le, text_le};
use crate::json::{
    decode_document, decode_object, encode_object, encode_object_pretty, json_document, json_export,
    json_export_pretty, json_object, json_pointer_string, JsonKind,
};
use crate::ordered_map::{
    distinct_keys, has_key, keys_of, lemma_put, lemma_put_pairs, lemma_take_out, lemma_take_out_pairs,
    map_get_index, map_insert, put, take_out, value_of, viewed,
};
use crate::storage::{
    first_bad_line, lemma_restore_distinct, line_record, parse_entries, restore, without_key,
    SharedStorage, Storage,
};

verus! {

/// A state of the store.
pub trait DBState {
    /// Whether the store is open in this state.
    spec fn open_state(&self) -> bool;

    /// Whether the store is open in this state.
    fn is_open(&self) -> (r: bool)
        ensures
            r == self.open_state(),
    ;
}

/// The state of a store that is not open.
pub struct Closed;

/// The state of a store whose persistence loop has ended and whose values
/// the host has not released yet.
pub struct HalfClosed {
    storage: SharedStorage,
}

/// The state of an open store.
pub struct Opened {
    storage: SharedStorage,
    index: Index,
    compress_promise: Option<u64>,
    is_closing: bool,
}

impl Opened {
    /// No key occurs twice, and the index matches the entries.
    #[verifier::type_invariant]
    spec fn sound(&self) -> bool {
        &&& distinct_keys(self.storage.pairs())
        &&& agrees(self.index@, self.index.pointers(), self.storage.pairs())
    }

    /// Takes the store and the index out for a change and leaves empty ones
    /// in their place.
    fn take(&mut self) -> (parts: (SharedStorage, Index))
        ensures
            parts.0 == old(self).storage,
            parts.1 == old(self).index,
            final(self).compress_promise == old(self).compress_promise,
            final(self).is_closing == old(self).is_closing,
            distinct_keys(parts.0.pairs()),
            agrees(parts.1@, parts.1.pointers(), parts.0.pairs()),
    {
        proof {
            use_type_invariant(&*self);
        }
        let mut index = Index::new(Vec::new());
        std::mem::swap(&mut index, &mut self.index);
        let mut storage = SharedStorage::new(Storage::new());
        std::mem::swap(&mut storage, &mut self.storage);
        (storage, index)
    }

    /// Puts the store and the index back after a change.
    fn put(&mut self, storage: SharedStorage, index: Index)
        requires
            distinct_keys(storage.pairs()),
            agrees(index@, index.pointers(), storage.pairs()),
        ensures
            final(self).storage == storage,
            final(self).index == index,
            final(self).compress_promise == old(self).compress_promise,
            final(self).is_closing == old(self).is_closing,
    {
        proof {
            use_type_invariant(&*self);
        }
        self.index = Index::new(Vec::new());
        self.storage = storage;
        self.index = index;
    }
}

impl DBState for Closed {
    open spec fn open_state(&self) -> bool {
        false
    }

    fn is_open(&self) -> (r: bool) {
        false
    }
}

impl DBState for Opened {
    open spec fn open_state(&self) -> bool {
        true
    }

    fn is_open(&self) -> (r: bool) {
        true
    }
}

impl DBState for HalfClosed {
    open spec fn open_state(&self) -> bool {
        false
    }

    fn is_open(&self) -> (r: bool) {
        false
    }
}

/// A store at `filename` in the state `S`.
pub struct RsonlDB<S: DBState> {
    filename: String,
    options: DBOptions,
    state: S,
}

impl<S: DBState> RsonlDB<S> {
    /// The path of the live log.
    pub closed spec fn path(&self) -> Seq<char> {
        self.filename@
    }

    /// The options of the store.
    pub closed spec fn options(&self) -> DBOptionsView {
        self.options@
    }

    /// The path of the live log.
    pub fn filename(&self) -> (name: &str)
        ensures
            name@ == self.path(),
    {
        self.filename.as_str()
    }

    /// The options of the store.
    pub fn get_options(&self) -> (options: &DBOptions)
        ensures
            options@ == self.options(),
    {
        &self.options
    }

    /// Whether the store is open in its state.
    pub closed spec fn open_state(&self) -> bool {
        self.state.open_state()
    }

    /// Whether the store is open.
    pub fn is_open(&self) -> (r: bool)
        ensures
            r == self.open_state(),
    {
        self.state.is_open()
    }
}

impl RsonlDB<Closed> {
    /// A closed store at `filename`.
    pub fn new(filename: String, options: DBOptions) -> (db: Self)
        ensures
            db.path() == filename@,
            db.options() == options@,
    {
        RsonlDB { filename, options, state: Closed }
    }

    /// Decides the steps that bring the files of the store in order before
    /// it is opened, from what is known of the live log, the backup and the
    /// compacted log.
    pub fn try_recover_db_files(&self, main: &FileProbe, backup: &FileProbe, dump: &FileProbe) -> (steps: Vec<FileStep>)
        ensures
            steps@ == recovery(main.usable(), backup.usable(), dump.usable()),
    {
        recovery_steps(main, backup, dump)
    }

    /// Takes the lock for an open, as `Lockfile::lock` decides from a look
    /// at the lock directory: the answer is what to do to the directory,
    /// after which the holder notes the heartbeat on `lock`, or why the lock
    /// cannot be had. While another holder's heartbeat is fresh the lock is
    /// busy.
    pub fn lock(&self, lock: &Lockfile, probe: &LockProbe) -> (result: Result<LockAction, JsonlDBError>)
        ensures
            match result {
                Ok(action) => lock_outcome(checked(lock.stale_interval(), *probe)) == Ok::<LockAction, ErrorView>(
                    action,
                ),
                Err(e) => lock_outcome(checked(lock.stale_interval(), *probe)) == Err::<LockAction, ErrorView>(e@),
            },
    {
        lock.lock(probe)
    }

    /// Opens the store over the lines of its log, for the holder of `lock`.
    /// Without a heartbeat on `lock`, because the lock was not taken or could
    /// not be had, the open fails as busy before a line is looked at.
    /// Otherwise the entries are those that the lines stand for, nothing is
    /// pending, and the index matches the entries. Where a line is no record
    /// and read errors are not ignored, the open fails with the number of the
    /// first such line.
    pub fn open(&self, lock: &Lockfile, lines: &Vec<String>) -> (result: Result<RsonlDB<Opened>, JsonlDBError>)
        ensures
            match result {
                Ok(db) => {
                    &&& lock.heartbeat() is Some
                    &&& db.is_open_of(self, lines.deep_view())
                    &&& !self.options().ignore_read_errors ==> forall|j: int|
                        0 <= j < lines.len() ==> line_record(#[trigger] lines.deep_view()[j]) is Some
                },
                Err(e) => {
                    &&& lock.heartbeat() is None ==> e@ == ErrorView::LockBusy
                    &&& lock.heartbeat() is Some ==> {
                        &&& !self.options().ignore_read_errors
                        &&& exists|i: int|
                            first_bad_line(lines.deep_view(), i) && e@ == (ErrorView::ParseError {
                                line: Some((i + 1) as usize),
                            })
                    }
                },
            },
    {
        if lock.mtime().is_none() {
            return Err(JsonlDBError::LockBusy);
        }
        let entries = match parse_entries(lines, self.options.ignore_read_errors) {
            Ok(entries) => entries,
            Err(e) => {
                return Err(e);
            },
        };
        let mut index = Index::new(copy_of(&self.options.index_paths));
        index.add_entries_checked(&entries);
        let storage = SharedStorage::new(Storage { entries, journal: Vec::new() });
        assert(storage.pending() =~= Seq::<JournalView>::empty());
        proof {
            lemma_restore_distinct(lines.deep_view());
            lemma_with_entries(Map::empty(), self.options().index_paths, storage.pairs());
            lemma_with_entries_only(self.options().index_paths, storage.pairs());
        }
        Ok(
            RsonlDB {
                filename: self.filename.clone(),
                options: self.options.duplicate(),
                state: Opened { storage, index, compress_promise: None, is_closing: false },
            },
        )
    }
}

impl RsonlDB<Opened> {
    /// The entries, in the order of the map.
    pub closed spec fn pairs(&self) -> Seq<(Seq<char>, EntryView)> {
        self.state.storage.pairs()
    }

    /// The pending writes, oldest first.
    pub closed spec fn pending(&self) -> Seq<JournalView> {
        self.state.storage.pending()
    }

    /// The buckets of the index.
    pub closed spec fn buckets(&self) -> Map<Seq<char>, Set<Seq<char>>> {
        self.state.index@
    }

    /// Whether the store is being closed.
    pub closed spec fn closing(&self) -> bool {
        self.state.is_closing
    }

    /// The ticket of the compaction that callers wait for, if there is one.
    pub closed spec fn compressing(&self) -> Option<u64> {
        self.state.compress_promise
    }

    /// The pointers that the index follows.
    pub closed spec fn pointers(&self) -> Seq<Seq<char>> {
        self.state.index.pointers()
    }

    /// Index consistency: no key occurs twice, and the index matches the
    /// entries. Wherever a value that the store owns has a string at one of
    /// the pointers, its key is in the bucket of that pointer and string; and
    /// a key is in a bucket only if the store holds the key and its value,
    /// where the store owns it, calls for the bucket. Every open store is
    /// consistent.
    pub open spec fn consistent(&self) -> bool {
        &&& distinct_keys(self.pairs())
        &&& agrees(self.buckets(), self.pointers(), self.pairs())
    }

    /// Whether this store is `before` but for its entries, its journal and
    /// its index.
    pub open spec fn same_frame(&self, before: &Self) -> bool {
        &&& self.path() == before.path()
        &&& self.options() == before.options()
        &&& self.pointers() == before.pointers()
        &&& self.closing() == before.closing()
        &&& self.compressing() == before.compressing()
    }

    /// Whether this store has the entries, the journal and the index of
    /// `before`.
    pub open spec fn same_content(&self, before: &Self) -> bool {
        &&& self.pairs() == before.pairs()
        &&& self.pending() == before.pending()
        &&& self.buckets() == before.buckets()
    }

    /// Whether this store is `before` after `key` was set to a value that
    /// the store owns.
    pub open spec fn is_set_native(&self, before: &Self, key: Seq<char>, value: Seq<char>) -> bool {
        &&& self.consistent()
        &&& self.same_frame(before)
        &&& self.pairs() == put(before.pairs(), key, EntryView::Native(value))
        &&& self.pending() == without_key(before.pending(), key).push(JournalView::Put(key))
        &&& self.buckets() == with_value(without(before.buckets(), key), before.pointers(), key, value)
    }

    /// Whether this store is `before` after `key` was set to a value that
    /// the host owns.
    pub open spec fn is_set_reference(
        &self,
        before: &Self,
        key: Seq<char>,
        obj: u64,
        stringified: Seq<char>,
        index_keys: Seq<Seq<char>>,
    ) -> bool {
        &&& self.consistent()
        &&& self.same_frame(before)
        &&& self.pairs() == put(before.pairs(), key, EntryView::Reference(stringified, obj))
        &&& self.pending() == without_key(before.pending(), key).push(JournalView::Put(key))
        &&& self.buckets() == with_key_in_all(without(before.buckets(), key), index_keys, key)
    }

    /// Whether this store is `before` after `key` was deleted.
    pub open spec fn is_delete(&self, before: &Self, key: Seq<char>) -> bool {
        &&& self.consistent()
        &&& self.same_frame(before)
        &&& has_key(before.pairs(), key) ==> {
            &&& self.pairs() == take_out(before.pairs(), key)
            &&& self.pending() == without_key(before.pending(), key).push(JournalView::Delete(key))
            &&& self.buckets() == without(before.buckets(), key)
        }
        &&& !has_key(before.pairs(), key) ==> self.same_content(before)
    }

    /// Whether this store is `before` after it was cleared.
    pub open spec fn is_clear(&self, before: &Self) -> bool {
        &&& self.consistent()
        &&& self.same_frame(before)
        &&& self.pairs() == Seq::<(Seq<char>, EntryView)>::empty()
        &&& self.pending() == seq![JournalView::Clear]
        &&& self.buckets() == Map::<Seq<char>, Set<Seq<char>>>::empty()
    }

    /// Whether this store is `before` after the members were imported.
    pub open spec fn is_import(&self, before: &Self, members: Seq<(Seq<char>, Seq<char>)>) -> bool {
        &&& self.consistent()
        &&& self.same_frame(before)
        &&& self.pairs() == imported(before.pairs(), members)
        &&& self.pending() == imported_pending(before.pending(), members)
        &&& self.buckets() == imported_buckets(before.buckets(), before.pointers(), members)
    }

    /// Whether this store is `before` after the handle `obj` was to be bound
    /// to `key`, and `bound` tells whether it was.
    pub open spec fn is_bind(&self, before: &Self, key: Seq<char>, obj: u64, bound: bool) -> bool {
        &&& self.consistent()
        &&& self.same_frame(before)
        &&& self.pending() == before.pending()
        &&& self.buckets() == before.buckets()
        &&& bound == (value_of(before.pairs(), key) matches Some(EntryView::Native(_)))
        &&& bound ==> self.pairs() == put(
            before.pairs(),
            key,
            EntryView::Reference(value_of(before.pairs(), key)->Some_0.text(), obj),
        )
        &&& !bound ==> self.pairs() == before.pairs()
    }

    /// Whether this store is `before` after a compaction was asked for with
    /// `ticket`: the compaction is under way for `ticket` if the store was
    /// not being closed and none was under way.
    pub open spec fn is_compress(&self, before: &Self, ticket: u64) -> bool {
        &&& self.same_content(before)
        &&& self.path() == before.path()
        &&& self.options() == before.options()
        &&& self.pointers() == before.pointers()
        &&& self.closing() == before.closing()
        &&& self.compressing() == (if before.closing() || before.compressing() is Some {
            before.compressing()
        } else {
            Some(ticket)
        })
    }

    /// Whether this store is what opening `closed` over `lines` gives.
    pub open spec fn is_open_of(&self, closed: &RsonlDB<Closed>, lines: Seq<Seq<char>>) -> bool {
        &&& self.consistent()
        &&& self.path() == closed.path()
        &&& self.options() == closed.options()
        &&& self.pointers() == closed.options().index_paths
        &&& self.pairs() == restore(lines)
        &&& self.pending() == Seq::<JournalView>::empty()
        &&& self.buckets() == with_entries(Map::empty(), closed.options().index_paths, self.pairs())
        &&& !self.closing()
        &&& self.compressing() is None
    }

    /// Whether the store holds `key`.
    pub fn has(&self, key: &String) -> (found: bool)
        ensures
            found == has_key(self.pairs(), key@),
    {
        self.state.storage.contains_key(key.as_str())
    }

    /// The number of entries.
    pub fn size(&self) -> (n: usize)
        ensures
            n == self.pairs().len(),
    {
        self.state.storage.len()
    }

    /// The keys in the order in which they were first inserted.
    pub fn all_keys(&self) -> (keys: Vec<String>)
        ensures
            keys.deep_view() == keys_of(self.pairs()),
    {
        self.state.storage.keys()
    }

    /// Sets `key` to a value that the store owns, the JSON text `value`. The
    /// key leaves the index buckets it was in and joins those that the value
    /// calls for. The value that the key had comes back, for the host to
    /// release.
    pub fn set_native(&mut self, key: String, value: String) -> (previous: Option<DBEntry>)
        ensures
            final(self).is_set_native(old(self), key@, value@),
            viewed(previous) == value_of(old(self).pairs(), key@),
    {
        let (mut storage, mut index) = self.state.take();
        proof {
            lemma_set_native_matches(index@, index.pointers(), storage.pairs(), key@, value@);
            lemma_put(storage.pairs(), key@, EntryView::Native(value@));
        }
        index.remove(key.as_str());
        index.add_value_checked(key.as_str(), value.as_str());
        let previous = storage.insert(key, DBEntry::Native(value));
        self.state.put(storage, index);
        previous
    }

    /// Sets `key` to a value that the host owns: its handle, its JSON text
    /// and the index buckets that the host has worked out for it. The key
    /// leaves the buckets it was in and joins those. The value that the key
    /// had comes back, for the host to release.
    pub fn set_reference(&mut self, key: String, obj: u64, stringified: String, index_keys: Vec<String>) -> (previous: Option<DBEntry>)
        ensures
            final(self).is_set_reference(old(self), key@, obj, stringified@, index_keys.deep_view()),
            viewed(previous) == value_of(old(self).pairs(), key@),
    {
        let (mut storage, mut index) = self.state.take();
        proof {
            let value = EntryView::Reference(stringified@, obj);
            lemma_set_reference_matches(index@, index.pointers(), storage.pairs(), key@, value, index_keys.deep_view());
            lemma_put(storage.pairs(), key@, value);
        }
        index.remove(key.as_str());
        index.add_many(key.as_str(), index_keys);
        let previous = storage.insert(key, DBEntry::Reference(stringified, obj));
        self.state.put(storage, index);
        previous
    }

    /// Deletes `key`. Where the store holds it, it leaves the map and every
    /// index bucket, a `Delete` is pending, and its value comes back, for the
    /// host to release. Where the store does not hold it nothing changes.
    pub fn delete(&mut self, key: String) -> (previous: Option<DBEntry>)
        ensures
            final(self).is_delete(old(self), key@),
            viewed(previous) == value_of(old(self).pairs(), key@),
    {
        if !self.has(&key) {
            proof {
                use_type_invariant(&self.state);
            }
            return None;
        }
        let (mut storage, mut index) = self.state.take();
        proof {
            lemma_delete_matches(index@, index.pointers(), storage.pairs(), key@);
            lemma_take_out(storage.pairs(), key@);
        }
        index.remove(key.as_str());
        let previous = storage.remove(key);
        self.state.put(storage, index);
        previous
    }

    /// Empties the store and the index. One `Clear` is pending afterwards.
    /// The values that the store held come back in the order of the map, for
    /// the host to release.
    pub fn clear(&mut self) -> (previous: Vec<DBEntry>)
        ensures
            final(self).is_clear(old(self)),
            previous.deep_view() == old(self).pairs().map_values(|p: (Seq<char>, EntryView)| p.1),
    {
        let (mut storage, mut index) = self.state.take();
        index.clear();
        let previous = storage.clear();
        self.state.put(storage, index);
        previous
    }

    /// The value of `key` on its way to the host, or nothing where the store
    /// does not hold the key.
    pub fn get(&self, key: &str) -> (result: Result<Option<JsValue>, JsonlDBError>)
        ensures
            match result {
                Ok(Some(v)) => value_of(self.pairs(), key@) is Some && converted(value_of(self.pairs(), key@)->Some_0)
                    == Ok::<JsValueView, ErrorView>(v@),
                Ok(None) => value_of(self.pairs(), key@) is None,
                Err(e) => value_of(self.pairs(), key@) is Some && converted(value_of(self.pairs(), key@)->Some_0)
                    == Err::<JsValueView, ErrorView>(e@),
            },
    {
        match self.state.storage.get(key) {
            Some(entry) => match get_or_convert_entry(entry) {
                Ok(v) => Ok(Some(v)),
                Err(e) => Err(e),
            },
            None => Ok(None),
        }
    }

    /// Binds the handle `obj` to `key` once the host has made its own value
    /// of an array or object that the store owned. The value keeps its text
    /// and its place, nothing becomes pending, and the answer is `true`.
    /// Where the store does not own the value of `key`, nothing changes and
    /// the answer is `false`.
    pub fn bind(&mut self, key: &str, obj: u64) -> (bound: bool)
        ensures
            final(self).is_bind(old(self), key@, obj, bound),
    {
        let text = match self.state.storage.get(key) {
            Some(DBEntry::Native(text)) => text.clone(),
            _ => {
                proof {
                    use_type_invariant(&self.state);
                }
                return false;
            },
        };
        let (mut storage, index) = self.state.take();
        proof {
            let value = EntryView::Reference(text@, obj);
            lemma_bind_matches(index@, index.pointers(), storage.pairs(), key@, value);
            lemma_put(storage.pairs(), key@, value);
        }
        let _ = map_insert(&mut storage.0.entries, String::from_str(key), DBEntry::Reference(text, obj));
        self.state.put(storage, index);
        true
    }

    /// The keys that a range query looks at: those of the bucket `filter`,
    /// where a filter is given and the index has that bucket, else all keys
    /// of the store.
    pub fn candidates(&self, obj_filter: &Option<String>) -> (keys: Vec<String>)
        ensures
            candidates_of(self.buckets(), self.pairs(), obj_filter.deep_view(), keys.deep_view()),
    {
        match obj_filter {
            Some(filter) => match self.state.index.get_keys(filter.as_str()) {
                Some(keys) => keys,
                None => self.state.storage.keys(),
            },
            None => self.state.storage.keys(),
        }
    }

    /// The values of those of `keys` that lie between `start_key` and
    /// `end_key`, both included, and that the store holds, each with its key
    /// and in the order of `keys`.
    pub fn select(&self, keys: &Vec<String>, start_key: &str, end_key: &str) -> (result: Result<Vec<(String, JsValue)>, JsonlDBError>)
        ensures
            match result {
                Ok(values) => selected(self.pairs(), keys.deep_view(), start_key@, end_key@) == Ok::<
                    Seq<(Seq<char>, JsValueView)>,
                    ErrorView,
                >(values.deep_view()),
                Err(e) => selected(self.pairs(), keys.deep_view(), start_key@, end_key@) == Err::<
                    Seq<(Seq<char>, JsValueView)>,
                    ErrorView,
                >(e@),
            },
    {
        let mut values: Vec<(String, JsValue)> = Vec::new();
        let mut i: usize = 0;
        assert(keys.deep_view().take(0) =~= Seq::<Seq<char>>::empty());
        assert(values.deep_view() =~= Seq::<(Seq<char>, JsValueView)>::empty());
        while i < keys.len()
            invariant
                i <= keys.len(),
                selected(self.pairs(), keys.deep_view().take(i as int), start_key@, end_key@) == Ok::<
                    Seq<(Seq<char>, JsValueView)>,
                    ErrorView,
                >(values.deep_view()),
            decreases keys.len() - i,
        {
            let ghost before = values.deep_view();
            proof {
                let next = keys.deep_view().take(i + 1);
                assert(next.drop_last() =~= keys.deep_view().take(i as int));
                assert(next.last() == keys[i as int]@);
            }
            let key = &keys[i];
            if text_le(start_key, key.as_str()) && text_le(key.as_str(), end_key) {
                match self.state.storage.get(key.as_str()) {
                    Some(entry) => match get_or_convert_entry(entry) {
                        Ok(v) => {
                            let k = key.clone();
                            values.push((k, v));
                            assert(values.deep_view() =~= before.push((k@, v@)));
                        },
                        Err(e) => {
                            proof {
                                lemma_selected_fails(self.pairs(), keys.deep_view(), start_key@, end_key@, i + 1);
                            }
                            return Err(e);
                        },
                    },
                    None => {},
                }
            }
            i += 1;
        }
        assert(keys.deep_view().take(keys.len() as int) =~= keys.deep_view());
        Ok(values)
    }

    /// The values for the keys between `start_key` and `end_key`, both
    /// included. With a filter whose bucket the index has, only the keys of
    /// that bucket are looked at. The order of the values is that of the keys
    /// that are looked at.
    pub fn get_many(&self, start_key: &str, end_key: &str, obj_filter: Option<String>) -> (result: Result<Vec<(String, JsValue)>, JsonlDBError>)
        ensures
            exists|keys: Seq<Seq<char>>|
                candidates_of(self.buckets(), self.pairs(), obj_filter.deep_view(), keys) && match result {
                    Ok(values) => selected(self.pairs(), keys, start_key@, end_key@) == Ok::<
                        Seq<(Seq<char>, JsValueView)>,
                        ErrorView,
                    >(values.deep_view()),
                    Err(e) => selected(self.pairs(), keys, start_key@, end_key@) == Err::<
                        Seq<(Seq<char>, JsValueView)>,
                        ErrorView,
                    >(e@),
                },
    {
        let keys = self.candidates(&obj_filter);
        self.select(&keys, start_key, end_key)
    }

    /// The store inside, for the persistence loop to render dumps from.
    pub fn storage(&self) -> (storage: &SharedStorage)
        ensures
            storage.pairs() == self.pairs(),
            storage.pending() == self.pending(),
    {
        &self.state.storage
    }

    /// Decides what the next round of the persistence loop works on, as
    /// `Persistence::next_command` does with the compaction options and the
    /// size of this store.
    pub fn next_command(&self, state: &mut Persistence, now: u128) -> (command: Option<Command>)
        ensures
            *final(state) == (Persistence { just_opened: false, ..*old(state) }),
            old(state).compaction_due(self.options().auto_compress, self.pairs().len() as int, now) ==> command
                == Some(Command::Compress { done: None }),
            !old(state).compaction_due(self.options().auto_compress, self.pairs().len() as int, now)
                ==> command is None,
    {
        state.next_command(&self.options.auto_compress, self.state.storage.len(), now)
    }

    /// Decides what the next round of the persistence loop serves, as
    /// `Persistence::next_wake` does with the compaction options and the size
    /// of this store.
    pub fn next_wake(&self, state: &mut Persistence, now: u128) -> (wake: Option<Wake>)
        ensures
            *final(state) == (Persistence { just_opened: false, ..*old(state) }),
            old(state).compaction_due(self.options().auto_compress, self.pairs().len() as int, now) ==> wake
                == Some(Wake::Received(Command::Compress { done: None })),
            !old(state).compaction_due(self.options().auto_compress, self.pairs().len() as int, now)
                ==> wake is None,
    {
        state.next_wake(&self.options.auto_compress, self.state.storage.len(), now)
    }

    /// One round of the persistence loop over this store, as
    /// `Persistence::persistence_thread` serves it. Only the journal of the
    /// store can change.
    pub fn round(&mut self, state: &mut Persistence, wake: Wake, now: u128) -> (action: Action)
        ensures
            final(self).consistent(),
            final(self).same_frame(old(self)),
            final(self).pairs() == old(self).pairs(),
            final(self).buckets() == old(self).buckets(),
            old(state).serves(
                *final(state),
                wake,
                old(self).pairs(),
                old(self).pending(),
                final(self).pending(),
                old(self).options().throttle_fs,
                now,
                action,
            ),
    {
        let (mut storage, index) = self.state.take();
        let action = state.persistence_thread(wake, &mut storage, &self.options, now);
        self.state.put(storage, index);
        action
    }

    /// Asks for a compaction on behalf of a caller who waits with `ticket`.
    /// While the store is being closed nothing happens. While a compaction is
    /// under way the caller joins those who wait for it. Otherwise the
    /// command goes out, and the compaction is under way until
    /// `compress_done`.
    pub fn compress(&mut self, ticket: u64) -> (request: Request)
        ensures
            final(self).consistent(),
            final(self).path() == old(self).path(),
            final(self).options() == old(self).options(),
            final(self).pointers() == old(self).pointers(),
            final(self).closing() == old(self).closing(),
            final(self).pairs() == old(self).pairs(),
            final(self).pending() == old(self).pending(),
            final(self).buckets() == old(self).buckets(),
            request@ == compress_request(old(self).closing(), old(self).compressing(), ticket),
            final(self).compressing() == (if old(self).closing() || old(self).compressing() is Some {
                old(self).compressing()
            } else {
                Some(ticket)
            }),
    {
        proof {
            use_type_invariant(&self.state);
        }
        if self.state.is_closing {
            return Request::Nothing;
        }
        match self.state.compress_promise {
            Some(pending) => Request::Join(pending),
            None => {
                self.state.compress_promise = Some(ticket);
                Request::Send(Command::Compress { done: Some(ticket) })
            },
        }
    }

    /// Notes that the compaction that callers waited for is over.
    pub fn compress_done(&mut self)
        ensures
            final(self).consistent(),
            final(self).path() == old(self).path(),
            final(self).options() == old(self).options(),
            final(self).pointers() == old(self).pointers(),
            final(self).closing() == old(self).closing(),
            final(self).pairs() == old(self).pairs(),
            final(self).pending() == old(self).pending(),
            final(self).buckets() == old(self).buckets(),
            final(self).compressing() is None,
    {
        proof {
            use_type_invariant(&self.state);
        }
        self.state.compress_promise = None;
    }

    /// Asks for a dump to `filename` on behalf of a caller who waits with
    /// `ticket`. While the store is being closed nothing happens.
    pub fn dump(&self, filename: &str, ticket: u64) -> (request: Request)
        ensures
            request@ == (if self.closing() {
                RequestView::Nothing
            } else {
                RequestView::Send(CommandView::Dump { filename: filename@, done: ticket })
            }),
    {
        if self.state.is_closing {
            return Request::Nothing;
        }
        Request::Send(Command::Dump { filename: String::from_str(filename), done: ticket })
    }

    /// The first step of closing: where the store is to be compacted on
    /// close, a compaction is asked for as by `compress`.
    pub fn compress_on_close(&mut self, ticket: u64) -> (request: Request)
        ensures
            final(self).consistent(),
            final(self).path() == old(self).path(),
            final(self).options() == old(self).options(),
            final(self).pointers() == old(self).pointers(),
            final(self).closing() == old(self).closing(),
            final(self).pairs() == old(self).pairs(),
            final(self).pending() == old(self).pending(),
            final(self).buckets() == old(self).buckets(),
            old(self).options().auto_compress.on_close ==> {
                &&& request@ == compress_request(old(self).closing(), old(self).compressing(), ticket)
                &&& final(self).compressing() == (if old(self).closing() || old(self).compressing() is Some {
                    old(self).compressing()
                } else {
                    Some(ticket)
                })
            },
            !old(self).options().auto_compress.on_close ==> {
                &&& request@ == RequestView::Nothing
                &&& final(self).compressing() == old(self).compressing()
            },
    {
        if self.options.auto_compress.on_close {
            self.compress(ticket)
        } else {
            proof {
                use_type_invariant(&self.state);
            }
            Request::Nothing
        }
    }

    /// The second step of closing: from now on the store is being closed,
    /// and the command that ends the persistence loop goes out.
    pub fn stop(&mut self) -> (command: Command)
        ensures
            final(self).consistent(),
            final(self).path() == old(self).path(),
            final(self).options() == old(self).options(),
            final(self).pointers() == old(self).pointers(),
            final(self).compressing() == old(self).compressing(),
            final(self).pairs() == old(self).pairs(),
            final(self).pending() == old(self).pending(),
            final(self).buckets() == old(self).buckets(),
            final(self).closing(),
            command@ == CommandView::Stop,
    {
        proof {
            use_type_invariant(&self.state);
        }
        self.state.is_closing = true;
        Command::Stop
    }

    /// The last step of closing, once the persistence loop has ended: the
    /// store is half closed and keeps its entries until the host has
    /// released what it owns.
    pub fn close(self) -> (db: RsonlDB<HalfClosed>)
        ensures
            db.path() == self.path(),
            db.options() == self.options(),
            db.held() == self.pairs(),
    {
        RsonlDB { filename: self.filename, options: self.options, state: HalfClosed { storage: self.state.storage } }
    }

    /// Inserts the members as values that the store owns, in their order.
    /// The values that were replaced come back, for the host to release.
    pub fn import_members(&mut self, members: &Vec<(String, String)>) -> (previous: Vec<DBEntry>)
        ensures
            final(self).is_import(old(self), members.deep_view()),
            previous.deep_view() == replaced(old(self).pairs(), members.deep_view()),
    {
        proof {
            use_type_invariant(&self.state);
        }
        let ghost listed = members.deep_view();
        let ghost pointers = self.pointers();
        let mut previous: Vec<DBEntry> = Vec::new();
        let mut i: usize = 0;
        assert(listed.take(0) =~= Seq::<(Seq<char>, Seq<char>)>::empty());
        assert(previous.deep_view() =~= Seq::<EntryView>::empty());
        while i < members.len()
            invariant
                i <= members.len(),
                listed == members.deep_view(),
                pointers == old(self).pointers(),
                self.consistent(),
                self.same_frame(old(self)),
                self.pairs() == imported(old(self).pairs(), listed.take(i as int)),
                self.pending() == imported_pending(old(self).pending(), listed.take(i as int)),
                self.buckets() == imported_buckets(old(self).buckets(), pointers, listed.take(i as int)),
                previous.deep_view() == replaced(old(self).pairs(), listed.take(i as int)),
            decreases members.len() - i,
        {
            let ghost before = previous.deep_view();
            proof {
                let next = listed.take(i + 1);
                assert(next.drop_last() =~= listed.take(i as int));
                assert(next.last() == listed[i as int]);
                assert(listed[i as int] == (members[i as int].0@, members[i as int].1@));
            }
            let key = members[i].0.clone();
            let value = members[i].1.clone();
            match self.set_native(key, value) {
                Some(entry) => {
                    previous.push(entry);
                    assert(previous.deep_view() =~= before.push(entry@));
                },
                None => {},
            }
            i += 1;
        }
        assert(listed.take(members.len() as int) =~= listed);
        previous
    }

    /// Inserts every member of the JSON object `json` as a value that the
    /// store owns, in the order in which the decoded object has its members.
    /// The values that were replaced come back, for the host to release.
    /// Where `json` is no JSON object nothing changes.
    pub fn import_json_string(&mut self, json: &str) -> (result: Result<Vec<DBEntry>, JsonlDBError>)
        ensures
            final(self).consistent(),
            final(self).same_frame(old(self)),
            match result {
                Ok(previous) => {
                    &&& json_object(json@) is Some
                    &&& final(self).is_import(old(self), json_object(json@)->Some_0)
                    &&& previous.deep_view() == replaced(old(self).pairs(), json_object(json@)->Some_0)
                },
                Err(e) => {
                    &&& json_object(json@) is None
                    &&& e@ == (ErrorView::ParseError { line: None })
                    &&& final(self).same_content(old(self))
                },
            },
    {
        match decode_object(json) {
            Some(members) => Ok(self.import_members(&members)),
            None => {
                proof {
                    use_type_invariant(&self.state);
                }
                Err(JsonlDBError::ParseError { line: None })
            },
        }
    }

    /// Renders the whole store as one JSON object, compact or pretty. A value
    /// whose text is no JSON document fails the export.
    pub fn export_json(&self, pretty: bool) -> (result: Result<String, JsonlDBError>)
        ensures
            match result {
                Ok(text) => exported(self.pairs(), pretty) == Some(text@),
                Err(e) => exported(self.pairs(), pretty) is None && e@ == (ErrorView::SerializeError {
                    reason: serialize_failed_reason(),
                }),
            },
    {
        let mut members: Vec<(String, String)> = Vec::new();
        let n = self.state.storage.len();
        let mut i: usize = 0;
        assert(members.deep_view() =~= texts(self.pairs()).take(0));
        while i < n
            invariant
                i <= n,
                n == self.pairs().len(),
                members.deep_view() == texts(self.pairs()).take(i as int),
            decreases n - i,
        {
            let ghost before = members.deep_view();
            match map_get_index(&self.state.storage.0.entries, i) {
                Some((key, value)) => {
                    let k = key.clone();
                    let t = String::from_str(value.text());
                    members.push((k, t));
                    assert(members.deep_view() =~= before.push((k@, t@)));
                    assert(texts(self.pairs()).take(i + 1) =~= texts(self.pairs()).take(i as int).push((k@, t@)));
                },
                None => {},
            }
            i += 1;
        }
        assert(texts(self.pairs()).take(n as int) =~= texts(self.pairs()));
        let rendered = if pretty {
            encode_object_pretty(&members)
        } else {
            encode_object(&members)
        };
        match rendered {
            Ok(text) => Ok(text),
            Err(e) => Err(JsonlDBError::serde_to_string_failed(e)),
        }
    }
}

impl RsonlDB<HalfClosed> {
    /// The entries that the half closed store still keeps.
    pub closed spec fn held(&self) -> Seq<(Seq<char>, EntryView)> {
        self.state.storage.pairs()
    }

    /// Closes the store for good. The handles of the values that the host
    /// owns come back in the order of the map, for the host to release.
    pub fn close(self) -> (closed: (RsonlDB<Closed>, Vec<u64>))
        ensures
            closed.0.path() == self.path(),
            closed.0.options() == self.options(),
            closed.1@ == handles(self.held()),
    {
        let mut released: Vec<u64> = Vec::new();
        let n = self.state.storage.len();
        let mut i: usize = 0;
        assert(handles(self.held().take(0)) =~= Seq::<u64>::empty());
        while i < n
            invariant
                i <= n,
                n == self.held().len(),
                released@ == handles(self.held().take(i as int)),
            decreases n - i,
        {
            proof {
                let next = self.held().take(i + 1);
                assert(next.drop_last() =~= self.held().take(i as int));
                assert(next.last() == self.held()[i as int]);
            }
            match map_get_index(&self.state.storage.0.entries, i) {
                Some((_, DBEntry::Reference(_, handle))) => {
                    released.push(*handle);
                },
                _ => {},
            }
            i += 1;
        }
        assert(self.held().take(n as int) =~= self.held());
        (RsonlDB { filename: self.filename, options: self.options, state: Closed }, released)
    }
}

/// What a caller of the facade has to do next.
#[derive(Debug)]
pub enum Request {
    /// Nothing.
    Nothing,
    /// Wait for the waiter with this ticket.
    Join(u64),
    /// Send the command to the persistence loop and wait for it.
    Send(Command),
}

/// A request as contracts see it.
pub enum RequestView {
    Nothing,
    Join(u64),
    Send(CommandView),
}

impl View for Request {
    type V = RequestView;

    open spec fn view(&self) -> RequestView {
        match self {
            Request::Nothing => RequestView::Nothing,
            Request::Join(ticket) => RequestView::Join(*ticket),
            Request::Send(command) => RequestView::Send(command@),
        }
    }
}

/// What asking for a compaction comes to.
pub open spec fn compress_request(closing: bool, compressing: Option<u64>, ticket: u64) -> RequestView {
    if closing {
        RequestView::Nothing
    } else if compressing is Some {
        RequestView::Join(compressing->Some_0)
    } else {
        RequestView::Send(CommandView::Compress { done: Some(ticket) })
    }
}

/// The handles of the values that the host owns, in the order of the map.
pub open spec fn handles(entries: Seq<(Seq<char>, EntryView)>) -> Seq<u64>
    decreases entries.len(),
{
    if entries.len() == 0 {
        Seq::empty()
    } else {
        let before = handles(entries.drop_last());
        match entries.last().1 {
            EntryView::Reference(_, handle) => before.push(handle),
            EntryView::Native(_) => before,
        }
    }
}

/// The entries as members of an object: each key with the JSON text of its
/// value.
pub open spec fn texts(entries: Seq<(Seq<char>, EntryView)>) -> Seq<(Seq<char>, Seq<char>)> {
    entries.map_values(|p: (Seq<char>, EntryView)| (p.0, p.1.text()))
}

/// The text of the whole store as one JSON object, pretty or compact.
pub open spec fn exported(entries: Seq<(Seq<char>, EntryView)>, pretty: bool) -> Option<Seq<char>> {
    if pretty {
        json_export_pretty(texts(entries))
    } else {
        json_export(texts(entries))
    }
}

/// The entries after the members were inserted in order.
pub open spec fn imported(entries: Seq<(Seq<char>, EntryView)>, members: Seq<(Seq<char>, Seq<char>)>) -> Seq<(Seq<char>, EntryView)>
    decreases members.len(),
{
    if members.len() == 0 {
        entries
    } else {
        put(imported(entries, members.drop_last()), members.last().0, EntryView::Native(members.last().1))
    }
}

/// The journal after the members were inserted in order.
pub open spec fn imported_pending(journal: Seq<JournalView>, members: Seq<(Seq<char>, Seq<char>)>) -> Seq<JournalView>
    decreases members.len(),
{
    if members.len() == 0 {
        journal
    } else {
        without_key(imported_pending(journal, members.drop_last()), members.last().0).push(
            JournalView::Put(members.last().0),
        )
    }
}

/// The index after the members were inserted in order.
pub open spec fn imported_buckets(
    buckets: Map<Seq<char>, Set<Seq<char>>>,
    pointers: Seq<Seq<char>>,
    members: Seq<(Seq<char>, Seq<char>)>,
) -> Map<Seq<char>, Set<Seq<char>>>
    decreases members.len(),
{
    if members.len() == 0 {
        buckets
    } else {
        with_value(
            without(imported_buckets(buckets, pointers, members.drop_last()), members.last().0),
            pointers,
            members.last().0,
            members.last().1,
        )
    }
}

/// The values that the insertion of the members replaced, in order.
pub open spec fn replaced(entries: Seq<(Seq<char>, EntryView)>, members: Seq<(Seq<char>, Seq<char>)>) -> Seq<EntryView>
    decreases members.len(),
{
    if members.len() == 0 {
        Seq::empty()
    } else {
        let before = replaced(entries, members.drop_last());
        match value_of(imported(entries, members.drop_last()), members.last().0) {
            Some(value) => before.push(value),
            None => before,
        }
    }
}

/// What the host gets for a value that the store owns, by the kind of the
/// value: the text of a primitive as it is, the text of an array or object
/// as a value that the host has to make its own, and an error for a text
/// that is no JSON document and has no kind.
pub open spec fn js_value(text: Seq<char>, kind: Option<JsonKind>) -> Result<JsValueView, ErrorView> {
    match kind {
        Some(kind) => if kind.is_primitive() {
            Ok(JsValueView::Primitive(text))
        } else {
            Ok(JsValueView::Unbound(text))
        },
        None => Err(ErrorView::ParseError { line: None }),
    }
}

/// The kind of a decoded document.
pub open spec fn kind_of(document: Option<(JsonKind, Seq<char>)>) -> Option<JsonKind> {
    match document {
        Some((kind, _)) => Some(kind),
        None => None,
    }
}

/// What the host gets for a stored value: the handle of a value that it
/// owns, or what `js_value` says for a value that the store owns.
pub open spec fn converted(e: EntryView) -> Result<JsValueView, ErrorView> {
    match e {
        EntryView::Reference(_, handle) => Ok(JsValueView::Object(handle)),
        EntryView::Native(text) => js_value(text, kind_of(json_document(text))),
    }
}

/// Decides what the host gets for a value that the store owns, from the
/// text of the value and its kind.
pub fn js_value_of(text: &str, kind: Option<JsonKind>) -> (result: Result<JsValue, JsonlDBError>)
    ensures
        match result {
            Ok(v) => js_value(text@, kind) == Ok::<JsValueView, ErrorView>(v@),
            Err(e) => js_value(text@, kind) == Err::<JsValueView, ErrorView>(e@),
        },
{
    match kind {
        Some(kind) => if kind.primitive() {
            Ok(JsValue::Primitive(String::from_str(text)))
        } else {
            Ok(JsValue::Unbound(String::from_str(text)))
        },
        None => Err(JsonlDBError::ParseError { line: None }),
    }
}

/// Decides what the host gets for a stored value.
pub fn get_or_convert_entry(entry: &DBEntry) -> (result: Result<JsValue, JsonlDBError>)
    ensures
        match result {
            Ok(v) => converted(entry@) == Ok::<JsValueView, ErrorView>(v@),
            Err(e) => converted(entry@) == Err::<JsValueView, ErrorView>(e@),
        },
{
    match entry {
        DBEntry::Reference(_, handle) => Ok(JsValue::Object(*handle)),
        DBEntry::Native(text) => {
            let kind = match decode_document(text.as_str()) {
                Some((kind, _)) => Some(kind),
                None => None,
            };
            js_value_of(text.as_str(), kind)
        },
    }
}

/// The text under which a primitive value is stored, from its decoded
/// document: the compact text of a document that is null, a boolean, a
/// number or a string. An array or object is refused with its compact text,
/// and what is no document is a parse error.
pub open spec fn primitive(document: Option<(JsonKind, Seq<char>)>) -> Result<Seq<char>, ErrorView> {
    match document {
        Some((kind, compact)) => if kind.is_primitive() {
            Ok(compact)
        } else {
            Err(ErrorView::NotPrimitive(compact))
        },
        None => Err(ErrorView::ParseError { line: None }),
    }
}

/// Decides under which text a primitive value is stored.
pub fn primitive_text(document: Option<(JsonKind, String)>) -> (result: Result<String, JsonlDBError>)
    ensures
        match result {
            Ok(text) => primitive(document.deep_view()) == Ok::<Seq<char>, ErrorView>(text@),
            Err(e) => primitive(document.deep_view()) == Err::<Seq<char>, ErrorView>(e@),
        },
{
    match document {
        Some((kind, compact)) => if kind.primitive() {
            Ok(compact)
        } else {
            Err(JsonlDBError::NotPrimitive(compact))
        },
        None => Err(JsonlDBError::ParseError { line: None }),
    }
}

/// Whether `key` lies between `start` and `end`, both included.
pub open spec fn in_range(key: Seq<char>, start: Seq<char>, end: Seq<char>) -> bool {
    lex_le(start, key) && lex_le(key, end)
}

/// Whether `keys` are the keys that a range query with `filter` looks at:
/// with a filter whose bucket is there, the keys of the bucket, each once;
/// otherwise the keys of the store in their order.
pub open spec fn candidates_of(
    buckets: Map<Seq<char>, Set<Seq<char>>>,
    entries: Seq<(Seq<char>, EntryView)>,
    filter: Option<Seq<char>>,
    keys: Seq<Seq<char>>,
) -> bool {
    if filter is Some && buckets.dom().contains(filter->Some_0) {
        keys.no_duplicates() && keys.to_set() == buckets[filter->Some_0]
    } else {
        keys == keys_of(entries)
    }
}

/// The result of a range query over `keys`: for each key in the range that
/// the store holds, the key and what the host gets for its value, in the
/// order of `keys`; the error of the first value that has one.
pub open spec fn selected(
    entries: Seq<(Seq<char>, EntryView)>,
    keys: Seq<Seq<char>>,
    start: Seq<char>,
    end: Seq<char>,
) -> Result<Seq<(Seq<char>, JsValueView)>, ErrorView>
    decreases keys.len(),
{
    if keys.len() == 0 {
        Ok(Seq::empty())
    } else {
        match selected(entries, keys.drop_last(), start, end) {
            Err(e) => Err(e),
            Ok(before) => {
                let key = keys.last();
                if in_range(key, start, end) && value_of(entries, key) is Some {
                    match converted(value_of(entries, key)->Some_0) {
                        Ok(v) => Ok(before.push((key, v))),
                        Err(e) => Err(e),
                    }
                } else {
                    Ok(before)
                }
            },
        }
    }
}

/// A range query that fails over the first `n` keys fails over all of them,
/// with the same error.
proof fn lemma_selected_fails(
    entries: Seq<(Seq<char>, EntryView)>,
    keys: Seq<Seq<char>>,
    start: Seq<char>,
    end: Seq<char>,
    n: int,
)
    requires
        0 <= n <= keys.len(),
        selected(entries, keys.take(n), start, end) is Err,
    ensures
        selected(entries, keys, start, end) == selected(entries, keys.take(n), start, end),
    decreases keys.len() - n,
{
    if n == keys.len() {
        assert(keys.take(n) =~= keys);
    } else {
        assert(keys.take(n + 1).drop_last() =~= keys.take(n));
        lemma_selected_fails(entries, keys, start, end, n + 1);
    }
}

} // verus!
