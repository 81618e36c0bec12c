//! An embeddable single-writer key/value store whose durable form is an
//! append-only log of JSON lines.
//!
//! The crate holds the store's logic: the in-memory map with its pending-write
//! journal, the record codec, the optional index, the decisions of the
//! persistence loop, of compaction and recovery, and of the lock directory.
//! Every function states what it returns in its contract. File and clock
//! access is left to the embedding program, which performs the actions that
//! the functions here decide on.

pub mod bg_thread;
pub mod db;
pub mod db_options;
pub mod entry;
pub mod error;
pub mod files;
pub mod index;
pub mod js_values;
pub mod json;
pub mod jsonldb_options;
pub mod lockfile;
pub mod log;
pub mod ordered_map;
pub mod persistence;
pub mod storage;
pub mod text;
pub mod util;

use vstd::prelude::*;
use crate::bg_thread::{Command, CommandView, Wake};
use crate::db::{
    candidates_of, compress_request, converted, exported, handles, primitive, primitive_text, replaced,
    selected, Closed, HalfClosed, Opened, Request, RequestView, RsonlDB,
};
use crate::db_options::DBOptions;
use crate::entry::{DBEntry, EntryView};
use crate::error::{serialize_failed_reason, ErrorView, JsonlDBError};
use crate::js_values::{JsValue, JsValueView};
use crate::json::{decode_document, encode_strings, json_document, json_object, json_strings};
use crate::jsonldb_options::JsonlDBOptions;
use crate::lockfile::{checked, lock_outcome, LockAction, LockProbe, Lockfile};
use crate::ordered_map::{has_key, keys_of, value_of, viewed};
use crate::persistence::{Action, Persistence};
use crate::storage::{first_bad_line, line_record};

verus! {

/// The store in one of its three states.
enum DB {
    Closed(RsonlDB<Closed>),
    HalfClosed(RsonlDB<HalfClosed>),
    Opened(RsonlDB<Opened>),
}

/// The store as the host sees it. Every operation says in which state it
/// works, and fails with an error in every other state.
pub struct JsonlDB {
    r: DB,
}

impl JsonlDB {
    /// The open store, if the store is open.
    pub closed spec fn opened(&self) -> Option<RsonlDB<Opened>> {
        match self.r {
            DB::Opened(db) => Some(db),
            _ => None,
        }
    }

    /// The half closed store, if the store is half closed.
    pub closed spec fn half_closed(&self) -> Option<RsonlDB<HalfClosed>> {
        match self.r {
            DB::HalfClosed(db) => Some(db),
            _ => None,
        }
    }

    /// The closed store, if the store is closed.
    pub closed spec fn closed(&self) -> Option<RsonlDB<Closed>> {
        match self.r {
            DB::Closed(db) => Some(db),
            _ => None,
        }
    }

    /// A closed store at `filename`. Options that are not given have their
    /// defaults.
    pub fn new(filename: String, options: Option<JsonlDBOptions>) -> (db: Self)
        ensures
            db.closed() is Some,
            db.closed()->Some_0.path() == filename@,
            db.closed()->Some_0.options() == (match options {
                Some(o) => o.resolved(),
                None => DBOptions::default_view(),
            }),
    {
        JsonlDB { r: DB::Closed(RsonlDB::new(filename, DBOptions::from(options))) }
    }

    /// Whether the store is open.
    pub fn is_open(&self) -> (r: bool)
        ensures
            r == (self.opened() is Some),
    {
        match &self.r {
            DB::Opened(_) => true,
            _ => false,
        }
    }

    /// The closed store, for the owner of the files to read its name and
    /// options before the open.
    pub fn as_closed(&self) -> (result: Result<&RsonlDB<Closed>, JsonlDBError>)
        ensures
            match result {
                Ok(db) => self.closed() == Some(*db),
                Err(e) => self.closed() is None && e@ == ErrorView::AlreadyOpen,
            },
    {
        match &self.r {
            DB::Closed(db) => Ok(db),
            _ => Err(JsonlDBError::AlreadyOpen),
        }
    }

    /// The open store, for the persistence loop to read.
    pub fn as_opened(&self) -> (result: Result<&RsonlDB<Opened>, JsonlDBError>)
        ensures
            match result {
                Ok(db) => self.opened() == Some(*db),
                Err(e) => self.opened() is None && e@ == ErrorView::NotOpen,
            },
    {
        match &self.r {
            DB::Opened(db) => Ok(db),
            _ => Err(JsonlDBError::NotOpen),
        }
    }

    /// One round of the persistence loop over the open store, as
    /// `RsonlDB::round` serves it.
    pub fn round(&mut self, state: &mut Persistence, wake: Wake, now: u128) -> (result: Result<Action, JsonlDBError>)
        ensures
            match result {
                Ok(action) => {
                    &&& old(self).opened() is Some
                    &&& final(self).opened() is Some
                    &&& final(self).opened()->Some_0.same_frame(&old(self).opened()->Some_0)
                    &&& final(self).opened()->Some_0.pairs() == old(self).opened()->Some_0.pairs()
                    &&& final(self).opened()->Some_0.buckets() == old(self).opened()->Some_0.buckets()
                    &&& old(state).serves(
                        *final(state),
                        wake,
                        old(self).opened()->Some_0.pairs(),
                        old(self).opened()->Some_0.pending(),
                        final(self).opened()->Some_0.pending(),
                        old(self).opened()->Some_0.options().throttle_fs,
                        now,
                        action,
                    )
                },
                Err(e) => {
                    &&& *final(self) == *old(self)
                    &&& *final(state) == *old(state)
                    &&& old(self).opened() is None
                    &&& e@ == ErrorView::NotOpen
                },
            },
    {
        match &mut self.r {
            DB::Opened(db) => Ok(db.round(state, wake, now)),
            _ => Err(JsonlDBError::NotOpen),
        }
    }

    /// Takes the lock for the open of a closed store, as `RsonlDB::lock`
    /// does.
    pub fn lock_for_open(&self, lock: &Lockfile, probe: &LockProbe) -> (result: Result<LockAction, JsonlDBError>)
        ensures
            self.closed() is None ==> result is Err && result->Err_0@ == ErrorView::AlreadyOpen,
            self.closed() is Some ==> (match result {
                Ok(action) => lock_outcome(checked(lock.stale_interval(), *probe)) == Ok::<LockAction, ErrorView>(
                    action,
                ),
                Err(e) => lock_outcome(checked(lock.stale_interval(), *probe)) == Err::<LockAction, ErrorView>(e@),
            }),
    {
        match &self.r {
            DB::Closed(db) => db.lock(lock, probe),
            _ => Err(JsonlDBError::AlreadyOpen),
        }
    }

    /// Opens a closed store over the lines of its log, for the holder of
    /// `lock`. A store that is not closed is open already; without a
    /// heartbeat on `lock` the store is busy; and a line that is no record
    /// fails the open unless read errors are ignored.
    pub fn open(&mut self, lock: &Lockfile, lines: &Vec<String>) -> (result: Result<(), JsonlDBError>)
        ensures
            match result {
                Ok(_) => {
                    &&& old(self).closed() is Some
                    &&& lock.heartbeat() is Some
                    &&& final(self).opened() is Some
                    &&& final(self).opened()->Some_0.is_open_of(&old(self).closed()->Some_0, lines.deep_view())
                    &&& !old(self).closed()->Some_0.options().ignore_read_errors ==> forall|j: int|
                        0 <= j < lines.len() ==> line_record(#[trigger] lines.deep_view()[j]) is Some
                },
                Err(e) => {
                    &&& *final(self) == *old(self)
                    &&& old(self).closed() is None ==> e@ == ErrorView::AlreadyOpen
                    &&& old(self).closed() is Some && lock.heartbeat() is None ==> e@ == ErrorView::LockBusy
                    &&& old(self).closed() is Some && lock.heartbeat() is Some ==> {
                        &&& !old(self).closed()->Some_0.options().ignore_read_errors
                        &&& exists|i: int|
                            first_bad_line(lines.deep_view(), i) && e@ == (ErrorView::ParseError {
                                line: Some((i + 1) as usize),
                            })
                    }
                },
            },
    {
        let opened = match &self.r {
            DB::Closed(db) => match db.open(lock, lines) {
                Ok(opened) => opened,
                Err(e) => {
                    return Err(e);
                },
            },
            _ => {
                return Err(JsonlDBError::AlreadyOpen);
            },
        };
        self.r = DB::Opened(opened);
        Ok(())
    }

    /// Sets `key` to a primitive value, given as JSON text. The text must be
    /// a JSON document, and its value null, a boolean, a number or a string;
    /// the store must be open. The value is stored in its compact text, and
    /// the value that the key had comes back.
    pub fn set_primitive(&mut self, key: String, value: &str) -> (result: Result<Option<DBEntry>, JsonlDBError>)
        ensures
            match result {
                Ok(previous) => {
                    &&& primitive(json_document(value@)) is Ok
                    &&& old(self).opened() is Some
                    &&& final(self).opened() is Some
                    &&& final(self).opened()->Some_0.is_set_native(
                        &old(self).opened()->Some_0,
                        key@,
                        primitive(json_document(value@))->Ok_0,
                    )
                    &&& viewed(previous) == value_of(old(self).opened()->Some_0.pairs(), key@)
                },
                Err(e) => {
                    &&& *final(self) == *old(self)
                    &&& match primitive(json_document(value@)) {
                        Ok(_) => old(self).opened() is None && e@ == ErrorView::NotOpen,
                        Err(refused) => e@ == refused,
                    }
                },
            },
    {
        let text = match primitive_text(decode_document(value)) {
            Ok(text) => text,
            Err(e) => {
                return Err(e);
            },
        };
        match &mut self.r {
            DB::Opened(db) => Ok(db.set_native(key, text)),
            _ => Err(JsonlDBError::NotOpen),
        }
    }

    /// Sets `key` to a value that the host owns: its handle, its JSON text
    /// and the index buckets that the host has worked out for it. The value
    /// that the key had comes back.
    pub fn set_object(&mut self, key: String, value: u64, stringified: String, index_keys: Vec<String>) -> (result: Result<Option<DBEntry>, JsonlDBError>)
        ensures
            match result {
                Ok(previous) => {
                    &&& old(self).opened() is Some
                    &&& final(self).opened() is Some
                    &&& final(self).opened()->Some_0.is_set_reference(
                        &old(self).opened()->Some_0,
                        key@,
                        value,
                        stringified@,
                        index_keys.deep_view(),
                    )
                    &&& viewed(previous) == value_of(old(self).opened()->Some_0.pairs(), key@)
                },
                Err(e) => *final(self) == *old(self) && old(self).opened() is None && e@ == ErrorView::NotOpen,
            },
    {
        match &mut self.r {
            DB::Opened(db) => Ok(db.set_reference(key, value, stringified, index_keys)),
            _ => Err(JsonlDBError::NotOpen),
        }
    }

    /// Deletes `key`. The value that the key had comes back; there is none
    /// where the store did not hold the key.
    pub fn delete(&mut self, key: String) -> (result: Result<Option<DBEntry>, JsonlDBError>)
        ensures
            match result {
                Ok(previous) => {
                    &&& old(self).opened() is Some
                    &&& final(self).opened() is Some
                    &&& final(self).opened()->Some_0.is_delete(&old(self).opened()->Some_0, key@)
                    &&& viewed(previous) == value_of(old(self).opened()->Some_0.pairs(), key@)
                },
                Err(e) => *final(self) == *old(self) && old(self).opened() is None && e@ == ErrorView::NotOpen,
            },
    {
        match &mut self.r {
            DB::Opened(db) => Ok(db.delete(key)),
            _ => Err(JsonlDBError::NotOpen),
        }
    }

    /// Empties the store. The values that it held come back in the order of
    /// the map.
    pub fn clear(&mut self) -> (result: Result<Vec<DBEntry>, JsonlDBError>)
        ensures
            match result {
                Ok(previous) => {
                    &&& old(self).opened() is Some
                    &&& final(self).opened() is Some
                    &&& final(self).opened()->Some_0.is_clear(&old(self).opened()->Some_0)
                    &&& previous.deep_view() == old(self).opened()->Some_0.pairs().map_values(
                        |p: (Seq<char>, EntryView)| p.1,
                    )
                },
                Err(e) => *final(self) == *old(self) && old(self).opened() is None && e@ == ErrorView::NotOpen,
            },
    {
        match &mut self.r {
            DB::Opened(db) => Ok(db.clear()),
            _ => Err(JsonlDBError::NotOpen),
        }
    }

    /// Whether the store holds `key`.
    pub fn has(&self, key: String) -> (result: Result<bool, JsonlDBError>)
        ensures
            match result {
                Ok(found) => self.opened() is Some && found == has_key(self.opened()->Some_0.pairs(), key@),
                Err(e) => self.opened() is None && e@ == ErrorView::NotOpen,
            },
    {
        match &self.r {
            DB::Opened(db) => Ok(db.has(&key)),
            _ => Err(JsonlDBError::NotOpen),
        }
    }

    /// The value of `key` on its way to the host, or nothing where the store
    /// does not hold the key.
    pub fn get(&self, key: String) -> (result: Result<Option<JsValue>, JsonlDBError>)
        ensures
            self.opened() is None ==> result is Err && result->Err_0@ == ErrorView::NotOpen,
            self.opened() is Some ==> (match result {
                Ok(Some(v)) => value_of(self.opened()->Some_0.pairs(), key@) is Some && converted(
                    value_of(self.opened()->Some_0.pairs(), key@)->Some_0,
                ) == Ok::<JsValueView, ErrorView>(v@),
                Ok(None) => value_of(self.opened()->Some_0.pairs(), key@) is None,
                Err(e) => value_of(self.opened()->Some_0.pairs(), key@) is Some && converted(
                    value_of(self.opened()->Some_0.pairs(), key@)->Some_0,
                ) == Err::<JsValueView, ErrorView>(e@),
            }),
    {
        match &self.r {
            DB::Opened(db) => db.get(key.as_str()),
            _ => Err(JsonlDBError::NotOpen),
        }
    }

    /// Binds the handle `obj` to `key`, as `RsonlDB::bind` does.
    pub fn bind(&mut self, key: String, obj: u64) -> (result: Result<bool, JsonlDBError>)
        ensures
            match result {
                Ok(bound) => {
                    &&& old(self).opened() is Some
                    &&& final(self).opened() is Some
                    &&& final(self).opened()->Some_0.is_bind(&old(self).opened()->Some_0, key@, obj, bound)
                },
                Err(e) => *final(self) == *old(self) && old(self).opened() is None && e@ == ErrorView::NotOpen,
            },
    {
        match &mut self.r {
            DB::Opened(db) => Ok(db.bind(key.as_str(), obj)),
            _ => Err(JsonlDBError::NotOpen),
        }
    }

    /// The values for the keys between `start_key` and `end_key`, both
    /// included, as `RsonlDB::get_many` gives them.
    pub fn get_many(&self, start_key: String, end_key: String, obj_filter: Option<String>) -> (result: Result<Vec<(String, JsValue)>, JsonlDBError>)
        ensures
            self.opened() is None ==> result is Err && result->Err_0@ == ErrorView::NotOpen,
            self.opened() is Some ==> exists|keys: Seq<Seq<char>>|
                candidates_of(
                    self.opened()->Some_0.buckets(),
                    self.opened()->Some_0.pairs(),
                    obj_filter.deep_view(),
                    keys,
                ) && match result {
                    Ok(values) => selected(self.opened()->Some_0.pairs(), keys, start_key@, end_key@) == Ok::<
                        Seq<(Seq<char>, JsValueView)>,
                        ErrorView,
                    >(values.deep_view()),
                    Err(e) => selected(self.opened()->Some_0.pairs(), keys, start_key@, end_key@) == Err::<
                        Seq<(Seq<char>, JsValueView)>,
                        ErrorView,
                    >(e@),
                },
    {
        match &self.r {
            DB::Opened(db) => {
                let keys = db.candidates(&obj_filter);
                let result = db.select(&keys, start_key.as_str(), end_key.as_str());
                proof {
                    let open = self.opened()->Some_0;
                    let k = keys.deep_view();
                    assert(open == *db);
                    assert(candidates_of(open.buckets(), open.pairs(), obj_filter.deep_view(), k));
                    assert(match result {
                        Ok(values) => selected(open.pairs(), k, start_key@, end_key@) == Ok::<
                            Seq<(Seq<char>, JsValueView)>,
                            ErrorView,
                        >(values.deep_view()),
                        Err(e) => selected(open.pairs(), k, start_key@, end_key@) == Err::<
                            Seq<(Seq<char>, JsValueView)>,
                            ErrorView,
                        >(e@),
                    });
                }
                result
            },
            _ => Err(JsonlDBError::NotOpen),
        }
    }

    /// The number of entries.
    pub fn size(&self) -> (result: Result<usize, JsonlDBError>)
        ensures
            match result {
                Ok(n) => self.opened() is Some && n == self.opened()->Some_0.pairs().len(),
                Err(e) => self.opened() is None && e@ == ErrorView::NotOpen,
            },
    {
        match &self.r {
            DB::Opened(db) => Ok(db.size()),
            _ => Err(JsonlDBError::NotOpen),
        }
    }

    /// The keys in the order in which they were first inserted.
    pub fn get_keys(&self) -> (result: Result<Vec<String>, JsonlDBError>)
        ensures
            match result {
                Ok(keys) => self.opened() is Some && keys.deep_view() == keys_of(self.opened()->Some_0.pairs()),
                Err(e) => self.opened() is None && e@ == ErrorView::NotOpen,
            },
    {
        match &self.r {
            DB::Opened(db) => Ok(db.all_keys()),
            _ => Err(JsonlDBError::NotOpen),
        }
    }

    /// The keys as the text of a JSON array of strings.
    pub fn get_keys_stringified(&self) -> (result: Result<String, JsonlDBError>)
        ensures
            match result {
                Ok(text) => self.opened() is Some && text@ == json_strings(keys_of(self.opened()->Some_0.pairs())),
                Err(e) => self.opened() is None && e@ == ErrorView::NotOpen,
            },
    {
        match &self.r {
            DB::Opened(db) => {
                let keys = db.all_keys();
                Ok(encode_strings(&keys))
            },
            _ => Err(JsonlDBError::NotOpen),
        }
    }

    /// Renders the whole store as one JSON object, compact or pretty.
    pub fn export_json(&self, pretty: bool) -> (result: Result<String, JsonlDBError>)
        ensures
            self.opened() is None ==> result is Err && result->Err_0@ == ErrorView::NotOpen,
            self.opened() is Some ==> (match result {
                Ok(text) => exported(self.opened()->Some_0.pairs(), pretty) == Some(text@),
                Err(e) => exported(self.opened()->Some_0.pairs(), pretty) is None && e@ == (
                ErrorView::SerializeError { reason: serialize_failed_reason() }),
            }),
    {
        match &self.r {
            DB::Opened(db) => db.export_json(pretty),
            _ => Err(JsonlDBError::NotOpen),
        }
    }

    /// Inserts every member of the JSON object `json` as a value that the
    /// store owns. The values that were replaced come back.
    pub fn import_json_string(&mut self, json: String) -> (result: Result<Vec<DBEntry>, JsonlDBError>)
        ensures
            match result {
                Ok(previous) => {
                    &&& old(self).opened() is Some
                    &&& final(self).opened() is Some
                    &&& json_object(json@) is Some
                    &&& final(self).opened()->Some_0.is_import(&old(self).opened()->Some_0, json_object(json@)->Some_0)
                    &&& previous.deep_view() == replaced(
                        old(self).opened()->Some_0.pairs(),
                        json_object(json@)->Some_0,
                    )
                },
                Err(e) => {
                    &&& old(self).opened() is None ==> *final(self) == *old(self) && e@ == ErrorView::NotOpen
                    &&& old(self).opened() is Some ==> {
                        &&& json_object(json@) is None
                        &&& e@ == (ErrorView::ParseError { line: None })
                        &&& final(self).opened() is Some
                        &&& final(self).opened()->Some_0.same_frame(&old(self).opened()->Some_0)
                        &&& final(self).opened()->Some_0.same_content(&old(self).opened()->Some_0)
                    }
                },
            },
    {
        match &mut self.r {
            DB::Opened(db) => db.import_json_string(json.as_str()),
            _ => Err(JsonlDBError::NotOpen),
        }
    }

    /// Asks for a compaction on behalf of a caller who waits with `ticket`,
    /// as `RsonlDB::compress` does.
    pub fn compress(&mut self, ticket: u64) -> (result: Result<Request, JsonlDBError>)
        ensures
            match result {
                Ok(request) => {
                    &&& old(self).opened() is Some
                    &&& final(self).opened() is Some
                    &&& final(self).opened()->Some_0.is_compress(&old(self).opened()->Some_0, ticket)
                    &&& request@ == compress_request(
                        old(self).opened()->Some_0.closing(),
                        old(self).opened()->Some_0.compressing(),
                        ticket,
                    )
                },
                Err(e) => *final(self) == *old(self) && old(self).opened() is None && e@ == ErrorView::NotOpen,
            },
    {
        match &mut self.r {
            DB::Opened(db) => Ok(db.compress(ticket)),
            _ => Err(JsonlDBError::NotOpen),
        }
    }

    /// Notes that the compaction that callers waited for is over.
    pub fn compress_done(&mut self) -> (result: Result<(), JsonlDBError>)
        ensures
            match result {
                Ok(_) => {
                    &&& old(self).opened() is Some
                    &&& final(self).opened() is Some
                    &&& final(self).opened()->Some_0.same_content(&old(self).opened()->Some_0)
                    &&& final(self).opened()->Some_0.path() == old(self).opened()->Some_0.path()
                    &&& final(self).opened()->Some_0.options() == old(self).opened()->Some_0.options()
                    &&& final(self).opened()->Some_0.closing() == old(self).opened()->Some_0.closing()
                    &&& final(self).opened()->Some_0.compressing() is None
                },
                Err(e) => *final(self) == *old(self) && old(self).opened() is None && e@ == ErrorView::NotOpen,
            },
    {
        match &mut self.r {
            DB::Opened(db) => {
                db.compress_done();
                Ok(())
            },
            _ => Err(JsonlDBError::NotOpen),
        }
    }

    /// Asks for a dump to `filename` on behalf of a caller who waits with
    /// `ticket`. While the store is being closed nothing happens.
    pub fn dump(&self, filename: String, ticket: u64) -> (result: Result<Request, JsonlDBError>)
        ensures
            match result {
                Ok(request) => self.opened() is Some && request@ == (if self.opened()->Some_0.closing() {
                    RequestView::Nothing
                } else {
                    RequestView::Send(CommandView::Dump { filename: filename@, done: ticket })
                }),
                Err(e) => self.opened() is None && e@ == ErrorView::NotOpen,
            },
    {
        match &self.r {
            DB::Opened(db) => Ok(db.dump(filename.as_str(), ticket)),
            _ => Err(JsonlDBError::NotOpen),
        }
    }

    /// The first step of closing an open store: where the store is to be
    /// compacted on close, a compaction is asked for as by `compress`.
    pub fn compress_on_close(&mut self, ticket: u64) -> (result: Result<Request, JsonlDBError>)
        ensures
            match result {
                Ok(request) => {
                    &&& old(self).opened() is Some
                    &&& final(self).opened() is Some
                    &&& old(self).opened()->Some_0.options().auto_compress.on_close ==> {
                        &&& final(self).opened()->Some_0.is_compress(&old(self).opened()->Some_0, ticket)
                        &&& request@ == compress_request(
                            old(self).opened()->Some_0.closing(),
                            old(self).opened()->Some_0.compressing(),
                            ticket,
                        )
                    }
                    &&& !old(self).opened()->Some_0.options().auto_compress.on_close ==> {
                        &&& final(self).opened()->Some_0.same_content(&old(self).opened()->Some_0)
                        &&& final(self).opened()->Some_0.same_frame(&old(self).opened()->Some_0)
                        &&& request@ == RequestView::Nothing
                    }
                },
                Err(e) => *final(self) == *old(self) && old(self).opened() is None && e@ == ErrorView::NotOpen,
            },
    {
        match &mut self.r {
            DB::Opened(db) => Ok(db.compress_on_close(ticket)),
            _ => Err(JsonlDBError::NotOpen),
        }
    }

    /// The second step of closing an open store: from now on the store is
    /// being closed, and the command that ends the persistence loop goes out.
    pub fn stop(&mut self) -> (result: Result<Command, JsonlDBError>)
        ensures
            match result {
                Ok(command) => {
                    &&& old(self).opened() is Some
                    &&& final(self).opened() is Some
                    &&& final(self).opened()->Some_0.same_content(&old(self).opened()->Some_0)
                    &&& final(self).opened()->Some_0.path() == old(self).opened()->Some_0.path()
                    &&& final(self).opened()->Some_0.options() == old(self).opened()->Some_0.options()
                    &&& final(self).opened()->Some_0.compressing() == old(self).opened()->Some_0.compressing()
                    &&& final(self).opened()->Some_0.closing()
                    &&& command@ == CommandView::Stop
                },
                Err(e) => *final(self) == *old(self) && old(self).opened() is None && e@ == ErrorView::NotOpen,
            },
    {
        match &mut self.r {
            DB::Opened(db) => Ok(db.stop()),
            _ => Err(JsonlDBError::NotOpen),
        }
    }

    /// Takes the state out and leaves a closed store with defaults behind.
    fn take(&mut self) -> (r: DB)
        ensures
            r == old(self).r,
            final(self).r is Closed,
    {
        let mut taken = DB::Closed(RsonlDB::new(String::new(), DBOptions::default()));
        std::mem::swap(&mut taken, &mut self.r);
        taken
    }

    /// The last step of closing an open store, once the persistence loop has
    /// ended: the store is half closed and keeps its entries until the host
    /// has released what it owns.
    pub fn half_close(&mut self) -> (result: Result<(), JsonlDBError>)
        ensures
            match result {
                Ok(_) => {
                    &&& old(self).opened() is Some
                    &&& final(self).half_closed() is Some
                    &&& final(self).half_closed()->Some_0.path() == old(self).opened()->Some_0.path()
                    &&& final(self).half_closed()->Some_0.options() == old(self).opened()->Some_0.options()
                    &&& final(self).half_closed()->Some_0.held() == old(self).opened()->Some_0.pairs()
                },
                Err(e) => *final(self) == *old(self) && old(self).opened() is None && e@ == ErrorView::NotOpen,
            },
    {
        match self.take() {
            DB::Opened(db) => {
                self.r = DB::HalfClosed(db.close());
                Ok(())
            },
            other => {
                self.r = other;
                Err(JsonlDBError::NotOpen)
            },
        }
    }

    /// Closes a half closed store for good. The handles of the values that
    /// the host owns come back in the order of the map, for the host to
    /// release. In every other state the store must be stopped first.
    pub fn close(&mut self) -> (result: Result<Vec<u64>, JsonlDBError>)
        ensures
            match result {
                Ok(released) => {
                    &&& old(self).half_closed() is Some
                    &&& final(self).closed() is Some
                    &&& final(self).closed()->Some_0.path() == old(self).half_closed()->Some_0.path()
                    &&& final(self).closed()->Some_0.options() == old(self).half_closed()->Some_0.options()
                    &&& released@ == handles(old(self).half_closed()->Some_0.held())
                },
                Err(e) => *final(self) == *old(self) && old(self).half_closed() is None && e@
                    == ErrorView::NotStopped,
            },
    {
        match self.take() {
            DB::HalfClosed(db) => {
                let (closed, released) = db.close();
                self.r = DB::Closed(closed);
                Ok(released)
            },
            other => {
                self.r = other;
                Err(JsonlDBError::NotStopped)
            },
        }
    }
}

} // verus!
