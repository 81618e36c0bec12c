//! The decisions of the persistence loop.
//!
//! The loop itself belongs to the owner of the file: it waits for a command,
//! writes, renames and syncs. What it does next is decided here, from the
//! state that the loop keeps between its rounds, the store and the clock's
//! reading, so that each round is one call and the actions it returns.

use vstd::prelude::*;
use vstd::string::StringExecFns;
use crate::bg_thread::{Command, Wake};
use crate::db_options::{AutoCompressOptions, DBOptions, ThrottleFSOptions};
use crate::entry::{EntryView, JournalView};
use crate::error::{ErrorView, JsonlDBError};
use crate::lockfile::{checked, update_outcome, LockAction, LockProbe, Lockfile};
use crate::log::{journal_ops, lemma_journal_lines_are_op_lines, op_line, Record, WriteOp};
use crate::ordered_map::{map_get_index, map_len};
use crate::storage::{journal_lines, upsert_line, format_line, SharedStorage};

verus! {

/// The longest wait for a command, in milliseconds.
pub const IDLE_MS: u64 = 20;

/// The milliseconds from `then` to `now` on a clock that does not run
/// backwards; zero where `now` is the earlier one.
pub open spec fn since(now: u128, then: u128) -> u128 {
    if now >= then {
        (now - then) as u128
    } else {
        0
    }
}

/// The milliseconds from `then` to `now`.
pub fn elapsed(now: u128, then: u128) -> (ms: u128)
    ensures
        ms == since(now, then),
{
    if now >= then {
        now - then
    } else {
        0
    }
}

/// The size trigger: it is switched on, the log holds at least the minimum
/// of records, and at least `size_factor` times as many as the map has
/// entries.
pub open spec fn size_trigger(opts: AutoCompressOptions, size: int, uncompressed_size: int) -> bool {
    &&& opts.size_factor != 0
    &&& uncompressed_size >= opts.size_factor_min_size
    &&& uncompressed_size >= opts.size_factor * size
}

/// The time trigger: it is switched on, enough records were written since
/// the last compaction, and more than the interval has passed since.
pub open spec fn time_trigger(opts: AutoCompressOptions, elapsed_ms: int, changes_since_compress: int) -> bool {
    &&& opts.interval_ms != 0
    &&& changes_since_compress >= opts.interval_min_changes
    &&& elapsed_ms > opts.interval_ms
}

/// Decides the size trigger: `size` is the number of entries in the map,
/// `uncompressed_size` the number of records in the log.
pub fn need_to_compress_by_size(opts: &AutoCompressOptions, size: u32, uncompressed_size: u32) -> (r: bool)
    ensures
        r == size_trigger(*opts, size as int, uncompressed_size as int),
{
    size_due(opts, size as usize, uncompressed_size as usize)
}

/// The size trigger for counts of any size.
fn size_due(opts: &AutoCompressOptions, size: usize, uncompressed_size: usize) -> (r: bool)
    ensures
        r == size_trigger(*opts, size as int, uncompressed_size as int),
{
    if opts.size_factor == 0 {
        return false;
    }
    assert(opts.size_factor as int * size as int <= u128::MAX) by (nonlinear_arith)
        requires
            opts.size_factor <= u32::MAX,
            size <= u64::MAX,
    ;
    let needed: u128 = (opts.size_factor as u128) * (size as u128);
    uncompressed_size as u128 >= opts.size_factor_min_size as u128 && uncompressed_size as u128 >= needed
}

/// Decides the time trigger: `elapsed_ms` is the time since the last
/// compaction, `changes_since_compress` the number of records written since.
pub fn need_to_compress_by_time(opts: &AutoCompressOptions, elapsed_ms: u128, changes_since_compress: usize) -> (r: bool)
    ensures
        r == time_trigger(*opts, elapsed_ms as int, changes_since_compress as int),
{
    if opts.interval_ms == 0 {
        return false;
    }
    changes_since_compress as u128 >= opts.interval_min_changes as u128 && elapsed_ms > opts.interval_ms as u128
}

/// Whether what ended the wait is the command to stop.
pub fn is_stop_cmd(wake: &Wake) -> (r: bool)
    ensures
        r == (*wake matches Wake::Received(Command::Stop)),
{
    match wake {
        Wake::Received(Command::Stop) => true,
        _ => false,
    }
}

/// Whether the journal is written now: there is something pending, and the
/// loop stops, or the throttle interval has passed since the last write, or
/// the journal is longer than the throttle lets it grow.
pub open spec fn write_due(journal_len: int, stop: bool, since_last_write: int, throttle: ThrottleFSOptions) -> bool {
    journal_len > 0 && (stop || since_last_write >= throttle.interval_ms || journal_len
        > throttle.max_buffered_commands)
}

/// Decides whether the journal is written now.
pub fn should_write(journal_len: usize, stop: bool, since_last_write: u128, throttle: &ThrottleFSOptions) -> (r: bool)
    ensures
        r == write_due(journal_len as int, stop, since_last_write as int, *throttle),
{
    journal_len > 0 && (stop || since_last_write >= throttle.interval_ms as u128 || journal_len
        > throttle.max_buffered_commands)
}

/// One operation on an open file.
#[derive(Debug)]
pub enum FileOp {
    /// Go back to the start of the file and cut it to length zero.
    Truncate,
    /// Append the text, which ends in a line feed.
    Append(String),
}

/// An operation on an open file as contracts see it.
pub enum FileOpView {
    Truncate,
    Append(Seq<char>),
}

impl View for FileOp {
    type V = FileOpView;

    open spec fn view(&self) -> FileOpView {
        match self {
            FileOp::Truncate => FileOpView::Truncate,
            FileOp::Append(text) => FileOpView::Append(text@),
        }
    }
}

impl DeepView for FileOp {
    type V = FileOpView;

    open spec fn deep_view(&self) -> FileOpView {
        self@
    }
}

/// What the writer does with a line of the journal: the empty line stands for
/// a truncation, every other line is appended with a line feed behind it.
pub open spec fn line_op(line: Seq<char>) -> FileOpView {
    if line.len() == 0 {
        FileOpView::Truncate
    } else {
        FileOpView::Append(line.push('\n'))
    }
}

/// What the writer does with a sequence of lines.
pub open spec fn line_ops(lines: Seq<Seq<char>>) -> Seq<FileOpView> {
    lines.map_values(|line: Seq<char>| line_op(line))
}

/// What the writer does for an operation on the log: it truncates for a
/// truncation, and appends the line of a record with a line feed behind it.
pub open spec fn file_op(op: WriteOp) -> FileOpView {
    match op {
        WriteOp::Truncate => FileOpView::Truncate,
        WriteOp::Append(record) => FileOpView::Append(op_line(op).push('\n')),
    }
}

/// The writer is told the operations of the journal: no record has an empty
/// line, so a truncation is what the empty line stands for and nothing else.
pub proof fn lemma_line_ops_are_journal_ops(entries: Seq<(Seq<char>, EntryView)>, journal: Seq<JournalView>)
    ensures
        line_ops(journal_lines(entries, journal)) == journal_ops(entries, journal).map_values(|op: WriteOp| file_op(op)),
{
    lemma_journal_lines_are_op_lines(entries, journal);
    let ops = journal_ops(entries, journal);
    assert forall|i: int| 0 <= i < ops.len() implies line_op(op_line(#[trigger] ops[i])) == file_op(ops[i]) by {
        match ops[i] {
            WriteOp::Truncate => {},
            WriteOp::Append(Record::Upsert(key, text)) => {
                assert(op_line(ops[i])[0] == '{');
            },
            WriteOp::Append(Record::Delete(key)) => {
                assert(op_line(ops[i])[0] == '{');
            },
        }
    }
    assert(line_ops(journal_lines(entries, journal)) =~= ops.map_values(|op: WriteOp| file_op(op)));
}

/// Turns the lines of a journal into the operations of the writer.
pub fn plan_writes(lines: Vec<String>) -> (ops: Vec<FileOp>)
    ensures
        ops.deep_view() == line_ops(lines.deep_view()),
{
    let mut ops: Vec<FileOp> = Vec::new();
    let mut i: usize = 0;
    while i < lines.len()
        invariant
            i <= lines.len(),
            ops.deep_view() == line_ops(lines.deep_view().take(i as int)),
        decreases lines.len() - i,
    {
        let ghost before = ops.deep_view();
        let ghost line = lines[i as int]@;
        if lines[i].as_str().is_empty() {
            ops.push(FileOp::Truncate);
        } else {
            proof {
                reveal_strlit("\n");
            }
            let mut text = lines[i].clone();
            text.append("\n");
            assert(text@ =~= line.push('\n'));
            ops.push(FileOp::Append(text));
        }
        assert(ops.deep_view() =~= before.push(line_op(line)));
        assert(line_ops(lines.deep_view().take(i + 1)) =~= line_ops(lines.deep_view().take(i as int)).push(line_op(line)));
        i += 1;
    }
    assert(lines.deep_view().take(lines.len() as int) =~= lines.deep_view());
    ops
}

/// A counter after one more record; it stays where it cannot grow.
pub open spec fn bump(n: usize) -> usize {
    if n < usize::MAX {
        (n + 1) as usize
    } else {
        n
    }
}

/// The two counters of the loop, the records in the log and the records
/// written since the last compaction, after the writer went through `ops`: a
/// truncation sets both to zero, an append adds one to both.
pub open spec fn counted(start: (usize, usize), ops: Seq<FileOpView>) -> (usize, usize)
    decreases ops.len(),
{
    if ops.len() == 0 {
        start
    } else {
        let before = counted(start, ops.drop_last());
        match ops.last() {
            FileOpView::Truncate => (0, 0),
            FileOpView::Append(_) => (bump(before.0), bump(before.1)),
        }
    }
}

/// The lines of a compacted log: one upsert for each entry, in the order of
/// the map.
pub open spec fn snapshot_lines(entries: Seq<(Seq<char>, EntryView)>) -> Seq<Seq<char>> {
    entries.map_values(|p: (Seq<char>, EntryView)| upsert_line(p.0, p.1.text()))
}

/// The lines of a compacted log are the lines of its records: one upsert
/// for each key, in the order of the keys.
pub proof fn lemma_snapshot_lines_are_record_lines(entries: Seq<(Seq<char>, EntryView)>)
    ensures
        snapshot_lines(entries) == crate::files::snapshot_records(entries).map_values(
            |record: Record| op_line(WriteOp::Append(record)),
        ),
{
    assert(snapshot_lines(entries) =~= crate::files::snapshot_records(entries).map_values(
        |record: Record| op_line(WriteOp::Append(record)),
    ));
}

/// The text of a file after the writer carried out the operations on it: a
/// truncation leaves nothing, an append adds its text at the end.
pub open spec fn after_ops(text: Seq<char>, ops: Seq<FileOpView>) -> Seq<char>
    decreases ops.len(),
{
    if ops.len() == 0 {
        text
    } else {
        match ops.last() {
            FileOpView::Truncate => Seq::empty(),
            FileOpView::Append(more) => after_ops(text, ops.drop_last()) + more,
        }
    }
}

/// The text of a compacted log: for each entry, in the order of the keys,
/// the line of its upsert and a line feed.
pub open spec fn snapshot_text(entries: Seq<(Seq<char>, EntryView)>) -> Seq<char>
    decreases entries.len(),
{
    if entries.len() == 0 {
        Seq::empty()
    } else {
        snapshot_text(entries.drop_last()) + upsert_line(entries.last().0, entries.last().1.text()) + seq!['\n']
    }
}

/// The operations of `render_dump` write the text of the compacted log into
/// an empty file.
pub proof fn lemma_rendered_text(entries: Seq<(Seq<char>, EntryView)>)
    ensures
        after_ops(Seq::empty(), line_ops(snapshot_lines(entries))) == snapshot_text(entries),
    decreases entries.len(),
{
    let ops = line_ops(snapshot_lines(entries));
    if entries.len() == 0 {
        assert(ops =~= Seq::<FileOpView>::empty());
    } else {
        let first = entries.drop_last();
        lemma_rendered_text(first);
        let line = upsert_line(entries.last().0, entries.last().1.text());
        assert(line[0] == '{');
        assert(ops.drop_last() =~= line_ops(snapshot_lines(first)));
        assert(ops.last() == FileOpView::Append(line.push('\n')));
        assert(line.push('\n') =~= line + seq!['\n']);
        assert(after_ops(Seq::empty(), ops) =~= snapshot_text(entries));
    }
}

/// Order preservation in a compaction: the dump of a store that nobody
/// changes between `render_dump` and `dump_tail` writes, into an empty file,
/// one line for each entry and nothing else: the upsert of the entry, in the
/// order of the keys. The text depends on the entries alone, so a second
/// compaction right after the first writes the same text.
pub proof fn lemma_dump_text(entries: Seq<(Seq<char>, EntryView)>, pending: Seq<JournalView>)
    ensures
        after_ops(
            Seq::empty(),
            line_ops(snapshot_lines(entries)) + line_ops(
                lines_from(journal_lines(entries, pending), pending.len() as int),
            ),
        ) == snapshot_text(entries),
{
    crate::log::lemma_lines_at_most_entries(entries, pending);
    let tail = line_ops(lines_from(journal_lines(entries, pending), pending.len() as int));
    assert(tail =~= Seq::<FileOpView>::empty());
    assert(line_ops(snapshot_lines(entries)) + tail =~= line_ops(snapshot_lines(entries)));
    lemma_rendered_text(entries);
}

/// The lines from position `from` on; none where there are not that many.
pub open spec fn lines_from(lines: Seq<Seq<char>>, from: int) -> Seq<Seq<char>> {
    if 0 <= from <= lines.len() {
        lines.skip(from)
    } else {
        Seq::empty()
    }
}

/// Renders the store for a dump: an append for each entry, in the order of
/// the map, and the length of the journal at this moment, which `dump_tail`
/// takes once the entries are written.
pub fn render_dump(storage: &SharedStorage) -> (dump: (Vec<FileOp>, usize))
    ensures
        dump.0.deep_view() == line_ops(snapshot_lines(storage.pairs())),
        dump.1 == storage.pending().len(),
{
    let mut lines: Vec<String> = Vec::new();
    let n = map_len(&storage.0.entries);
    let mut i: usize = 0;
    while i < n
        invariant
            i <= n,
            n == storage.pairs().len(),
            lines.deep_view() == snapshot_lines(storage.pairs()).take(i as int),
        decreases n - i,
    {
        let ghost before = lines.deep_view();
        match map_get_index(&storage.0.entries, i) {
            Some((key, value)) => {
                let line = format_line(key.as_str(), value.text());
                lines.push(line);
                assert(lines.deep_view() =~= before.push(line@));
                assert(snapshot_lines(storage.pairs()).take(i + 1) =~= snapshot_lines(storage.pairs()).take(
                    i as int,
                ).push(line@));
            },
            None => {},
        }
        i += 1;
    }
    assert(snapshot_lines(storage.pairs()).take(n as int) =~= snapshot_lines(storage.pairs()));
    (plan_writes(lines), storage.journal_len())
}

/// The operations that complete a dump: the lines of the journal behind the
/// first `journal_len`, which came while the entries were written. The
/// journal stays as it is. A truncation among them cuts the dump itself back
/// to nothing.
pub fn dump_tail(storage: &SharedStorage, journal_len: usize) -> (ops: Vec<FileOp>)
    ensures
        ops.deep_view() == line_ops(
            lines_from(journal_lines(storage.pairs(), storage.pending()), journal_len as int),
        ),
{
    let lines = storage.clone_journal();
    let mut tail: Vec<String> = Vec::new();
    let ghost all = lines.deep_view();
    if journal_len <= lines.len() {
        let mut i: usize = journal_len;
        assert(all.skip(journal_len as int).take(0) =~= Seq::<Seq<char>>::empty());
        while i < lines.len()
            invariant
                journal_len <= i <= lines.len(),
                all == lines.deep_view(),
                tail.deep_view() == all.skip(journal_len as int).take(i - journal_len),
            decreases lines.len() - i,
        {
            let ghost before = tail.deep_view();
            let line = lines[i].clone();
            tail.push(line);
            assert(tail.deep_view() =~= before.push(line@));
            assert(all.skip(journal_len as int).take(i + 1 - journal_len) =~= all.skip(journal_len as int).take(
                i - journal_len,
            ).push(line@));
            i += 1;
        }
        assert(all.skip(journal_len as int).take(lines.len() - journal_len) =~= all.skip(journal_len as int));
    } else {
        assert(tail.deep_view() =~= Seq::<Seq<char>>::empty());
    }
    plan_writes(tail)
}

/// What the loop keeps from one round to the next.
#[derive(Debug, Clone, Copy)]
pub struct Persistence {
    /// When the journal was last written.
    pub last_write: u128,
    /// When the log was last compacted.
    pub last_compress: u128,
    /// When the lock was last refreshed.
    pub last_lock_refresh: u128,
    /// The records in the log, tombstones included.
    pub uncompressed_size: usize,
    /// The records written since the last compaction.
    pub changes_since_compress: usize,
    /// Whether the loop is in its first round.
    pub just_opened: bool,
}

/// What a round of the loop asks of the owner of the file.
#[derive(Debug)]
#[allow(inconsistent_fields)]
pub enum Action {
    /// Carry out the operations on the live log and flush. With `stop`, make
    /// the file durable after that and end the loop.
    Write { ops: Vec<FileOp>, stop: bool },
    /// Compact the log. Carry out the operations on the live log, flush, make
    /// the file durable and close it. Write the dump from `render_dump` and
    /// `dump_tail` to the compacted log and make it durable. Go through
    /// `swap_steps`, open the live log again at its end, call
    /// `finish_compress`, and wake the waiter of `done`.
    Compress { ops: Vec<FileOp>, done: Option<u64> },
    /// Write the dump from `render_dump` and `dump_tail` to the file
    /// `filename`, make it durable and wake the waiter of `done`.
    Dump { filename: String, done: u64 },
}

impl Persistence {
    /// The state of a loop that starts at `now` over a log of `map_len` records.
    pub fn new(now: u128, map_len: usize) -> (state: Persistence)
        ensures
            state == (Persistence {
                last_write: now,
                last_compress: now,
                last_lock_refresh: now,
                uncompressed_size: map_len,
                changes_since_compress: 0,
                just_opened: true,
            }),
    {
        Persistence {
            last_write: now,
            last_compress: now,
            last_lock_refresh: now,
            uncompressed_size: map_len,
            changes_since_compress: 0,
            just_opened: true,
        }
    }

    /// Whether the lock is due for a refresh: the interval after which a lock
    /// counts as stale has passed since the last one.
    pub fn lock_refresh_due(&self, now: u128, stale_interval_ms: u128) -> (due: bool)
        ensures
            due == (since(now, self.last_lock_refresh) >= stale_interval_ms),
    {
        elapsed(now, self.last_lock_refresh) >= stale_interval_ms
    }

    /// The first step of every round: the refresh of the lock. While the
    /// stale interval has not passed since the last refresh there is nothing
    /// to do. Once it has, the lock is refreshed as `Lockfile::update` decides
    /// from a look at its directory: the answer is what to do to the
    /// directory, after which the refresh is noted with `lock_refreshed`, or
    /// the error that ends the loop at once. Neither the state of the loop nor
    /// the store is touched, so a round that ends here has drained and
    /// written nothing.
    pub fn refresh_lock(&self, lock: &Lockfile, probe: &LockProbe, now: u128) -> (result: Result<Option<LockAction>, JsonlDBError>)
        ensures
            since(now, self.last_lock_refresh) < lock.stale_interval() ==> result matches Ok(None),
            since(now, self.last_lock_refresh) >= lock.stale_interval() ==> match result {
                Ok(action) => action is Some && update_outcome(
                    lock.heartbeat(),
                    checked(lock.stale_interval(), *probe),
                ) == Ok::<LockAction, ErrorView>(action->Some_0),
                Err(e) => update_outcome(lock.heartbeat(), checked(lock.stale_interval(), *probe)) == Err::<
                    LockAction,
                    ErrorView,
                >(e@),
            },
    {
        if !self.lock_refresh_due(now, lock.get_stale_interval_ms()) {
            return Ok(None);
        }
        match lock.update(probe) {
            Ok(action) => Ok(Some(action)),
            Err(e) => Err(e),
        }
    }

    /// Notes that the lock was refreshed at `now`.
    pub fn lock_refreshed(&mut self, now: u128)
        ensures
            *final(self) == (Persistence { last_lock_refresh: now, ..*old(self) }),
    {
        self.last_lock_refresh = now;
    }

    /// Whether the loop compacts on its own account in this round: it has
    /// just been started and is to compact on open, or one of the two triggers
    /// fires.
    pub open spec fn compaction_due(self, opts: AutoCompressOptions, map_len: int, now: u128) -> bool {
        ||| (self.just_opened && opts.on_open)
        ||| size_trigger(opts, map_len, self.uncompressed_size as int)
        ||| time_trigger(opts, since(now, self.last_compress) as int, self.changes_since_compress as int)
    }

    /// Decides what the round works on. Where a compaction is due the answer
    /// is a `Compress` that nobody waits for; otherwise there is none, and the
    /// loop waits for a command for at most `IDLE_MS`. The first round is over
    /// afterwards.
    pub fn next_command(&mut self, opts: &AutoCompressOptions, map_len: usize, now: u128) -> (command: Option<Command>)
        ensures
            *final(self) == (Persistence { just_opened: false, ..*old(self) }),
            old(self).compaction_due(*opts, map_len as int, now) ==> command == Some(Command::Compress { done: None }),
            !old(self).compaction_due(*opts, map_len as int, now) ==> command is None,
    {
        let due = (self.just_opened && opts.on_open) || size_due(opts, map_len, self.uncompressed_size)
            || need_to_compress_by_time(opts, elapsed(now, self.last_compress), self.changes_since_compress);
        self.just_opened = false;
        if due {
            Some(Command::Compress { done: None })
        } else {
            None
        }
    }

    /// The second step of every round: what the round serves. Where a
    /// compaction is due, as `next_command` decides, the round serves a
    /// `Compress` that nobody waits for, as if it had been received. Otherwise
    /// there is nothing yet, and the round serves what ends a wait for a
    /// command of at most `IDLE_MS`. The first round is over afterwards.
    pub fn next_wake(&mut self, opts: &AutoCompressOptions, map_len: usize, now: u128) -> (wake: Option<Wake>)
        ensures
            *final(self) == (Persistence { just_opened: false, ..*old(self) }),
            old(self).compaction_due(*opts, map_len as int, now) ==> wake == Some(
                Wake::Received(Command::Compress { done: None }),
            ),
            !old(self).compaction_due(*opts, map_len as int, now) ==> wake is None,
    {
        match self.next_command(opts, map_len, now) {
            Some(command) => Some(Wake::Received(command)),
            None => None,
        }
    }

    /// Counts the operations that go to the live log.
    pub fn account(&mut self, ops: &Vec<FileOp>)
        ensures
            *final(self) == old(self).counting(ops.deep_view()),
    {
        let ghost start = (self.uncompressed_size, self.changes_since_compress);
        let mut i: usize = 0;
        assert(ops.deep_view().take(0) =~= Seq::<FileOpView>::empty());
        while i < ops.len()
            invariant
                i <= ops.len(),
                (self.uncompressed_size, self.changes_since_compress) == counted(start, ops.deep_view().take(i as int)),
                self.last_write == old(self).last_write,
                self.last_compress == old(self).last_compress,
                self.last_lock_refresh == old(self).last_lock_refresh,
                self.just_opened == old(self).just_opened,
            decreases ops.len() - i,
        {
            proof {
                let next = ops.deep_view().take(i + 1);
                assert(next.drop_last() =~= ops.deep_view().take(i as int));
                assert(next.last() == ops[i as int]@);
            }
            match &ops[i] {
                FileOp::Truncate => {
                    self.uncompressed_size = 0;
                    self.changes_since_compress = 0;
                },
                FileOp::Append(_) => {
                    if self.uncompressed_size < usize::MAX {
                        self.uncompressed_size += 1;
                    }
                    if self.changes_since_compress < usize::MAX {
                        self.changes_since_compress += 1;
                    }
                },
            }
            i += 1;
        }
        assert(ops.deep_view().take(ops.len() as int) =~= ops.deep_view());
    }

    /// The round without a command, or with the command to stop. Where a
    /// write is due the journal is drained, its operations are counted and
    /// handed out, and the time of the last write is `now`. Otherwise nothing
    /// changes and there is nothing to write.
    pub fn idle(&mut self, storage: &mut SharedStorage, throttle: &ThrottleFSOptions, stop: bool, now: u128) -> (ops: Vec<FileOp>)
        ensures
            final(storage).pairs() == old(storage).pairs(),
            write_due(old(storage).pending().len() as int, stop, since(now, old(self).last_write) as int, *throttle) ==> {
                &&& ops.deep_view() == line_ops(journal_lines(old(storage).pairs(), old(storage).pending()))
                &&& final(storage).pending() == Seq::<JournalView>::empty()
                &&& *final(self) == (Persistence { last_write: now, ..old(self).counting(ops.deep_view()) })
            },
            !write_due(old(storage).pending().len() as int, stop, since(now, old(self).last_write) as int, *throttle) ==> {
                &&& ops.deep_view() == Seq::<FileOpView>::empty()
                &&& final(storage).pending() == old(storage).pending()
                &&& *final(self) == *old(self)
            },
    {
        if should_write(storage.journal_len(), stop, elapsed(now, self.last_write), throttle) {
            let ops = plan_writes(storage.drain_journal());
            self.account(&ops);
            self.last_write = now;
            ops
        } else {
            let ops: Vec<FileOp> = Vec::new();
            assert(ops.deep_view() =~= Seq::<FileOpView>::empty());
            ops
        }
    }

    /// The first step of a compaction: the journal is drained, whatever the
    /// throttle says, and its operations are counted and handed out, so that
    /// the live log is complete before it becomes the backup.
    pub fn begin_compress(&mut self, storage: &mut SharedStorage) -> (ops: Vec<FileOp>)
        ensures
            final(storage).pairs() == old(storage).pairs(),
            final(storage).pending() == Seq::<JournalView>::empty(),
            ops.deep_view() == line_ops(journal_lines(old(storage).pairs(), old(storage).pending())),
            *final(self) == old(self).counting(ops.deep_view()),
    {
        let ops = plan_writes(storage.drain_journal());
        self.account(&ops);
        ops
    }

    /// The last step of a compaction: the log holds one record for each of
    /// the `map_len` entries, nothing was written since, and the compaction
    /// happened at `now`.
    pub fn finish_compress(&mut self, map_len: usize, now: u128)
        ensures
            *final(self) == (Persistence {
                uncompressed_size: map_len,
                changes_since_compress: 0,
                last_compress: now,
                ..*old(self)
            }),
    {
        self.uncompressed_size = map_len;
        self.changes_since_compress = 0;
        self.last_compress = now;
    }

    /// The state after the operations `ops` went to the live log.
    pub open spec fn counting(self, ops: Seq<FileOpView>) -> Persistence {
        Persistence {
            uncompressed_size: counted((self.uncompressed_size, self.changes_since_compress), ops).0,
            changes_since_compress: counted((self.uncompressed_size, self.changes_since_compress), ops).1,
            ..self
        }
    }

    /// Whether `after`, `pending_after` and `action` are what a round of the
    /// loop makes of this state, the entries and the pending writes, given
    /// what ended the wait. A `Compress` drains the journal and counts its
    /// operations. A `Dump` is handed on and changes nothing. Anything else
    /// is an idle round, with `stop` set for the command to stop: where a
    /// write is due the journal is drained and counted and the time of the
    /// last write is `now`, otherwise nothing changes.
    pub open spec fn serves(
        self,
        after: Persistence,
        wake: Wake,
        entries: Seq<(Seq<char>, EntryView)>,
        pending: Seq<JournalView>,
        pending_after: Seq<JournalView>,
        throttle: ThrottleFSOptions,
        now: u128,
        action: Action,
    ) -> bool {
        match wake {
            Wake::Received(Command::Compress { done }) => {
                &&& action matches Action::Compress { ops, done: d }
                &&& d == done
                &&& ops.deep_view() == line_ops(journal_lines(entries, pending))
                &&& pending_after == Seq::<JournalView>::empty()
                &&& after == self.counting(ops.deep_view())
            },
            Wake::Received(Command::Dump { filename, done }) => {
                &&& action matches Action::Dump { filename: f, done: d }
                &&& f@ == filename@
                &&& d == done
                &&& pending_after == pending
                &&& after == self
            },
            _ => {
                let stop = wake matches Wake::Received(Command::Stop);
                let due = write_due(pending.len() as int, stop, since(now, self.last_write) as int, throttle);
                &&& action matches Action::Write { ops, stop: s }
                &&& s == stop
                &&& due ==> {
                    &&& ops.deep_view() == line_ops(journal_lines(entries, pending))
                    &&& pending_after == Seq::<JournalView>::empty()
                    &&& after == (Persistence { last_write: now, ..self.counting(ops.deep_view()) })
                }
                &&& !due ==> {
                    &&& ops.deep_view() == Seq::<FileOpView>::empty()
                    &&& pending_after == pending
                    &&& after == self
                }
            },
        }
    }

    /// One round of the loop, given what ended the wait: see `serves`. The
    /// entries of the store stay as they are.
    pub fn persistence_thread(&mut self, wake: Wake, storage: &mut SharedStorage, opts: &DBOptions, now: u128) -> (action: Action)
        ensures
            final(storage).pairs() == old(storage).pairs(),
            old(self).serves(
                *final(self),
                wake,
                old(storage).pairs(),
                old(storage).pending(),
                final(storage).pending(),
                opts.throttle_fs,
                now,
                action,
            ),
    {
        let stop = is_stop_cmd(&wake);
        match wake {
            Wake::Received(Command::Compress { done }) => {
                let ops = self.begin_compress(storage);
                Action::Compress { ops, done }
            },
            Wake::Received(Command::Dump { filename, done }) => Action::Dump { filename, done },
            _ => {
                let ops = self.idle(storage, &opts.throttle_fs, stop, now);
                Action::Write { ops, stop }
            },
        }
    }
}

} // verus!
