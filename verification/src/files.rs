//! The files of a store and the steps that move them: the swap that ends a
//! compaction, and the recovery that precedes an open.
//!
//! The steps are decided here and carried out by the owner of the files. A
//! model of the three files says what a sequence of steps leaves behind, and
//! the laws at the end say that a crash at any point of a compaction is
//! recovered from.

use vstd::prelude::*;
use vstd::string::StringExecFns;
use crate::entry::EntryView;
use crate::entry::JournalView;
use crate::log::{journal_ops, lemma_text_map_put, replay, text_map, written, Record};
use crate::ordered_map::{distinct_keys, has_key, lemma_position_at, put};

verus! {

/// The three files of a store.
#[derive(Debug, Clone, Copy, PartialEq, Eq, Structural)]
pub enum FileRole {
    /// The live log, `<name>`.
    Main,
    /// The previous log during a compaction, `<name>.bak`.
    Backup,
    /// The compacted log while it is written, `<name>.dump`.
    Dump,
}

/// One step on the files.
#[derive(Debug, Clone, Copy, PartialEq, Eq, Structural)]
pub enum FileStep {
    /// Make the directory entries durable.
    SyncDir,
    /// Rename the first file to the second, replacing it. A failure ends the
    /// sequence with an error.
    Rename(FileRole, FileRole),
    /// Remove the file. A failure ends the sequence with an error.
    Remove(FileRole),
    /// Remove the file if it is there, and go on whatever happens.
    Discard(FileRole),
}

/// What is known of a file before recovery.
#[derive(Debug, Clone, Copy)]
pub struct FileProbe {
    /// Whether anything is there under the name.
    pub exists: bool,
    /// Whether it is a regular file.
    pub is_file: bool,
    /// Its size in bytes.
    pub len: u64,
}

impl FileProbe {
    /// A file can be recovered from if it is there, is a regular file and is
    /// not empty.
    pub open spec fn usable(self) -> bool {
        self.exists && self.is_file && self.len > 0
    }

    /// Whether the file can be recovered from.
    pub fn is_usable(&self) -> (r: bool)
        ensures
            r == self.usable(),
    {
        self.exists && self.is_file && self.len > 0
    }
}

/// The name of the file with the role `role` for the store at `filename`.
pub open spec fn file_name(filename: Seq<char>, role: FileRole) -> Seq<char> {
    match role {
        FileRole::Main => filename,
        FileRole::Backup => filename + seq!['.', 'b', 'a', 'k'],
        FileRole::Dump => filename + seq!['.', 'd', 'u', 'm', 'p'],
    }
}

/// The path of the file with the role `role` for the store at `filename`.
pub fn file_path(filename: &str, role: FileRole) -> (path: String)
    ensures
        path@ == file_name(filename@, role),
{
    let mut path = String::from_str(filename);
    match role {
        FileRole::Main => {},
        FileRole::Backup => {
            proof {
                reveal_strlit(".bak");
            }
            path.append(".bak");
            assert(path@ =~= file_name(filename@, role));
        },
        FileRole::Dump => {
            proof {
                reveal_strlit(".dump");
            }
            path.append(".dump");
            assert(path@ =~= file_name(filename@, role));
        },
    }
    path
}

/// The steps of recovery, by which of the three files can be recovered from.
/// The live log is preferred. Without it the backup is, which was complete
/// before the compacted log began to replace it, and then the compacted log.
/// With none of them the store starts empty.
pub open spec fn recovery(main: bool, backup: bool, dump: bool) -> Seq<FileStep> {
    if main {
        seq![FileStep::Discard(FileRole::Backup), FileStep::Discard(FileRole::Dump)]
    } else if backup {
        seq![FileStep::Rename(FileRole::Backup, FileRole::Main), FileStep::Discard(FileRole::Dump)]
    } else if dump {
        seq![FileStep::Rename(FileRole::Dump, FileRole::Main), FileStep::Discard(FileRole::Backup)]
    } else {
        Seq::empty()
    }
}

/// Decides the steps of recovery from what is known of the three files.
pub fn recovery_steps(main: &FileProbe, backup: &FileProbe, dump: &FileProbe) -> (steps: Vec<FileStep>)
    ensures
        steps@ == recovery(main.usable(), backup.usable(), dump.usable()),
{
    let mut steps: Vec<FileStep> = Vec::new();
    if main.is_usable() {
        steps.push(FileStep::Discard(FileRole::Backup));
        steps.push(FileStep::Discard(FileRole::Dump));
    } else if backup.is_usable() {
        steps.push(FileStep::Rename(FileRole::Backup, FileRole::Main));
        steps.push(FileStep::Discard(FileRole::Dump));
    } else if dump.is_usable() {
        steps.push(FileStep::Rename(FileRole::Dump, FileRole::Main));
        steps.push(FileStep::Discard(FileRole::Backup));
    }
    assert(steps@ =~= recovery(main.usable(), backup.usable(), dump.usable()));
    steps
}

/// The steps that swap a written compacted log into place: a barrier, the
/// live log becomes the backup, the compacted log becomes the live log,
/// another barrier, and the backup goes.
pub open spec fn swap() -> Seq<FileStep> {
    seq![
        FileStep::SyncDir,
        FileStep::Rename(FileRole::Main, FileRole::Backup),
        FileStep::Rename(FileRole::Dump, FileRole::Main),
        FileStep::SyncDir,
        FileStep::Remove(FileRole::Backup),
    ]
}

/// The steps that end a compaction once the compacted log is written.
pub fn swap_steps() -> (steps: Vec<FileStep>)
    ensures
        steps@ == swap(),
{
    let mut steps: Vec<FileStep> = Vec::new();
    steps.push(FileStep::SyncDir);
    steps.push(FileStep::Rename(FileRole::Main, FileRole::Backup));
    steps.push(FileStep::Rename(FileRole::Dump, FileRole::Main));
    steps.push(FileStep::SyncDir);
    steps.push(FileStep::Remove(FileRole::Backup));
    assert(steps@ =~= swap());
    steps
}

/// A model of the three files: for each what it holds, if it is there. What
/// a file holds is a sequence, of records or of lines.
pub struct FileSet<T> {
    pub main: Option<Seq<T>>,
    pub backup: Option<Seq<T>>,
    pub dump: Option<Seq<T>>,
}

impl<T> FileSet<T> {
    /// What the file with the role holds.
    pub open spec fn get(self, role: FileRole) -> Option<Seq<T>> {
        match role {
            FileRole::Main => self.main,
            FileRole::Backup => self.backup,
            FileRole::Dump => self.dump,
        }
    }

    /// The files with one of them replaced.
    pub open spec fn with(self, role: FileRole, content: Option<Seq<T>>) -> FileSet<T> {
        match role {
            FileRole::Main => FileSet { main: content, ..self },
            FileRole::Backup => FileSet { backup: content, ..self },
            FileRole::Dump => FileSet { dump: content, ..self },
        }
    }

    /// The files after one step. A rename of a file that is not there fails
    /// and changes nothing.
    pub open spec fn after(self, step: FileStep) -> FileSet<T> {
        match step {
            FileStep::SyncDir => self,
            FileStep::Rename(from, to) => if self.get(from) is Some {
                self.with(to, self.get(from)).with(from, None)
            } else {
                self
            },
            FileStep::Remove(role) => self.with(role, None),
            FileStep::Discard(role) => self.with(role, None),
        }
    }

    /// The files after the steps, in order.
    pub open spec fn after_all(self, steps: Seq<FileStep>) -> FileSet<T>
        decreases steps.len(),
    {
        if steps.len() == 0 {
            self
        } else {
            self.after_all(steps.drop_last()).after(steps.last())
        }
    }

    /// The files after recovery.
    pub open spec fn recovered(self) -> FileSet<T> {
        self.after_all(recovery(holds_records(self.main), holds_records(self.backup), holds_records(self.dump)))
    }

    /// What an open reads after recovery: what the live log holds, or nothing
    /// where the live log is made anew.
    pub open spec fn opened(self) -> Seq<T> {
        match self.recovered().main {
            Some(log) => log,
            None => Seq::empty(),
        }
    }
}

/// A file of the model can be recovered from if it is there and is not
/// empty.
pub open spec fn holds_records<T>(file: Option<Seq<T>>) -> bool {
    file is Some && file->Some_0.len() > 0
}

/// The records of a compacted log: one upsert for each entry, in the order
/// of the map.
pub open spec fn snapshot_records(entries: Seq<(Seq<char>, EntryView)>) -> Seq<Record> {
    entries.map_values(|p: (Seq<char>, EntryView)| Record::Upsert(p.0, p.1.text()))
}

/// A compacted log replays to the entries it was made from.
pub proof fn lemma_snapshot_replays(entries: Seq<(Seq<char>, EntryView)>)
    requires
        distinct_keys(entries),
    ensures
        replay(snapshot_records(entries)) == text_map(entries),
    decreases entries.len(),
{
    let records = snapshot_records(entries);
    if entries.len() == 0 {
        assert(text_map(entries) =~= Map::<Seq<char>, Seq<char>>::empty());
    } else {
        let before = entries.drop_last();
        let last = entries.last();
        lemma_snapshot_replays(before);
        assert(records.drop_last() =~= snapshot_records(before));
        assert(records.last() == Record::Upsert(last.0, last.1.text()));
        crate::ordered_map::lemma_position(before, last.0);
        if has_key(before, last.0) {
            let p = crate::ordered_map::position(before, last.0);
            assert(entries[p].0 == before[p].0);
            assert(entries[p].0 != entries[entries.len() - 1].0);
        }
        assert(put(before, last.0, last.1) =~= entries);
        lemma_text_map_put(before, last.0, last.1);
    }
}

/// Crash recovery while the compacted log is written. The live log is
/// untouched, and of the compacted log any number of records may have
/// reached the disk. Recovery opens what the live log held, and
/// leaves no records in another file.
pub proof fn lemma_recovery_before_swap(log: Seq<Record>, entries: Seq<(Seq<char>, EntryView)>, dump: Option<int>)
    requires
        distinct_keys(entries),
        replay(log) == text_map(entries),
        dump is Some ==> 0 <= dump->Some_0 <= entries.len(),
    ensures
        ({
            let crashed = FileSet {
                main: Some(log),
                backup: None,
                dump: match dump {
                    Some(n) => Some(snapshot_records(entries).take(n)),
                    None => None,
                },
            };
            &&& replay(crashed.opened()) == text_map(entries)
            &&& !holds_records(crashed.recovered().backup)
            &&& !holds_records(crashed.recovered().dump)
        }),
{
    let crashed = FileSet {
        main: Some(log),
        backup: None,
        dump: match dump {
            Some(n) => Some(snapshot_records(entries).take(n)),
            None => None,
        },
    };
    let steps = recovery(holds_records(crashed.main), holds_records(crashed.backup), holds_records(crashed.dump));
    lemma_two_steps(crashed, steps);
    if log.len() == 0 {
        lemma_empty_map_no_entries(entries);
        assert(steps =~= Seq::<FileStep>::empty());
    }
}

/// Crash recovery during the swap: the compacted log is written, and any
/// number of the steps of the swap were carried out. Recovery opens a log
/// that replays to the entries of the store, and leaves no records in another
/// file.
pub proof fn lemma_recovery_during_swap(log: Seq<Record>, entries: Seq<(Seq<char>, EntryView)>, done: int)
    requires
        distinct_keys(entries),
        replay(log) == text_map(entries),
        0 <= done <= swap().len(),
    ensures
        ({
            let written = FileSet { main: Some(log), backup: None, dump: Some(snapshot_records(entries)) };
            let crashed = written.after_all(swap().take(done));
            &&& replay(crashed.opened()) == text_map(entries)
            &&& !holds_records(crashed.recovered().backup)
            &&& !holds_records(crashed.recovered().dump)
        }),
{
    let snapshot = snapshot_records(entries);
    lemma_snapshot_replays(entries);
    let written = FileSet { main: Some(log), backup: None, dump: Some(snapshot) };
    lemma_prefixes(written);
    let crashed = written.after_all(swap().take(done));
    let steps = recovery(holds_records(crashed.main), holds_records(crashed.backup), holds_records(crashed.dump));
    lemma_two_steps(crashed, steps);
    if log.len() == 0 {
        lemma_empty_map_no_entries(entries);
        assert(snapshot.len() == 0);
    }
    if snapshot.len() == 0 {
        assert(entries.len() == 0);
        assert(text_map(entries) =~= Map::<Seq<char>, Seq<char>>::empty());
    }
    assert(steps.len() == 0 ==> steps =~= Seq::<FileStep>::empty());
}

/// The files after each prefix of the swap.
proof fn lemma_prefixes<T>(start: FileSet<T>)
    ensures
        start.after_all(swap().take(0)) == start,
        start.after_all(swap().take(1)) == start.after(swap()[0]),
        start.after_all(swap().take(2)) == start.after(swap()[0]).after(swap()[1]),
        start.after_all(swap().take(3)) == start.after(swap()[0]).after(swap()[1]).after(swap()[2]),
        start.after_all(swap().take(4)) == start.after(swap()[0]).after(swap()[1]).after(swap()[2]).after(
            swap()[3],
        ),
        start.after_all(swap().take(5)) == start.after(swap()[0]).after(swap()[1]).after(swap()[2]).after(
            swap()[3],
        ).after(swap()[4]),
{
    let s = swap();
    assert(s.take(1).drop_last() =~= s.take(0));
    assert(s.take(2).drop_last() =~= s.take(1));
    assert(s.take(3).drop_last() =~= s.take(2));
    assert(s.take(4).drop_last() =~= s.take(3));
    assert(s.take(5).drop_last() =~= s.take(4));
    assert(s.take(1).last() == s[0]);
    assert(s.take(2).last() == s[1]);
    assert(s.take(3).last() == s[2]);
    assert(s.take(4).last() == s[3]);
    assert(s.take(5).last() == s[4]);
    assert(start.after_all(s.take(0)) == start);
    assert(start.after_all(s.take(1)) == start.after_all(s.take(0)).after(s[0]));
    assert(start.after_all(s.take(2)) == start.after_all(s.take(1)).after(s[1]));
    assert(start.after_all(s.take(3)) == start.after_all(s.take(2)).after(s[2]));
    assert(start.after_all(s.take(4)) == start.after_all(s.take(3)).after(s[3]));
    assert(start.after_all(s.take(5)) == start.after_all(s.take(4)).after(s[4]));
}

/// The files after a sequence of at most two steps.
proof fn lemma_two_steps<T>(start: FileSet<T>, steps: Seq<FileStep>)
    requires
        steps.len() == 0 || steps.len() == 2,
    ensures
        steps.len() == 0 ==> start.after_all(steps) == start,
        steps.len() == 2 ==> start.after_all(steps) == start.after(steps[0]).after(steps[1]),
{
    if steps.len() == 2 {
        let first = steps.drop_last();
        assert(first.len() == 1);
        assert(first.drop_last().len() == 0);
        assert(start.after_all(first.drop_last()) == start);
        assert(first.last() == steps[0]);
        assert(start.after_all(first) == start.after(steps[0]));
    }
}

/// Entries whose map of texts is empty are no entries.
proof fn lemma_empty_map_no_entries(entries: Seq<(Seq<char>, EntryView)>)
    requires
        distinct_keys(entries),
        text_map(entries) == Map::<Seq<char>, Seq<char>>::empty(),
    ensures
        entries.len() == 0,
{
    if entries.len() > 0 {
        lemma_position_at(entries, 0);
        assert(has_key(entries, entries[0].0));
        assert(text_map(entries).dom().contains(entries[0].0));
    }
}

/// The records of a compacted log are in the order of the keys of the store.
pub proof fn lemma_snapshot_order(entries: Seq<(Seq<char>, EntryView)>)
    ensures
        snapshot_records(entries).len() == entries.len(),
        forall|i: int|
            0 <= i < entries.len() ==> #[trigger] snapshot_records(entries)[i] == Record::Upsert(
                crate::ordered_map::keys_of(entries)[i],
                entries[i].1.text(),
            ),
{
}

/// The files and the journal after a compaction of a store that nobody
/// changes meanwhile: the journal is written to the live log, the entries
/// are written to the compacted log, and the swap is gone through.
pub open spec fn compacted(
    log: Seq<Record>,
    entries: Seq<(Seq<char>, EntryView)>,
    journal: Seq<JournalView>,
) -> (FileSet<Record>, Seq<JournalView>) {
    let complete = written(log, journal_ops(entries, journal));
    let ready = FileSet { main: Some(complete), backup: None, dump: Some(snapshot_records(entries)) };
    (ready.after_all(swap()), Seq::empty())
}

/// Compaction is idempotent: it leaves the live log with the records of the
/// entries and nothing else, and a second compaction right after it leaves
/// the same.
pub proof fn lemma_compaction_idempotent(
    log: Seq<Record>,
    entries: Seq<(Seq<char>, EntryView)>,
    journal: Seq<JournalView>,
)
    ensures
        compacted(log, entries, journal) == (
            FileSet { main: Some(snapshot_records(entries)), backup: None, dump: None },
            Seq::<JournalView>::empty(),
        ),
        compacted(snapshot_records(entries), entries, compacted(log, entries, journal).1) == compacted(
            log,
            entries,
            journal,
        ),
{
    let complete = written(log, journal_ops(entries, journal));
    let ready = FileSet { main: Some(complete), backup: None, dump: Some(snapshot_records(entries)) };
    lemma_prefixes(ready);
    assert(swap().take(5) =~= swap());
    let empty = Seq::<JournalView>::empty();
    let again = written(snapshot_records(entries), journal_ops(entries, empty));
    assert(again == snapshot_records(entries));
    let ready2 = FileSet { main: Some(again), backup: None, dump: Some(snapshot_records(entries)) };
    lemma_prefixes(ready2);
}

/// What an open reads after a crash while the compacted log is written:
/// what the live log held; or, where the live log was empty, what had
/// reached the compacted log.
pub proof fn lemma_recovery_keeps_log<T>(log: Seq<T>, dump: Option<Seq<T>>)
    ensures
        ({
            let crashed = FileSet { main: Some(log), backup: None, dump };
            &&& log.len() > 0 || dump is None ==> crashed.opened() == log
            &&& log.len() == 0 && dump is Some ==> crashed.opened() == dump->Some_0
            &&& !holds_records(crashed.recovered().backup)
            &&& !holds_records(crashed.recovered().dump)
        }),
{
    let crashed = FileSet { main: Some(log), backup: None, dump };
    let steps = recovery(holds_records(crashed.main), holds_records(crashed.backup), holds_records(crashed.dump));
    lemma_two_steps(crashed, steps);
    if steps.len() == 0 {
        assert(steps =~= Seq::<FileStep>::empty());
        if dump is Some {
            assert(dump->Some_0 =~= log);
        }
    }
}

/// What an open reads after a crash at any point of the swap: what the live
/// log held before, or what the compacted log holds; the first until the
/// live log was renamed, unless it was empty, and no file but the live log
/// is left with anything in it.
pub proof fn lemma_recovery_opens_log_or_dump<T>(log: Seq<T>, dump: Seq<T>, done: int)
    requires
        0 <= done <= swap().len(),
    ensures
        ({
            let written = FileSet { main: Some(log), backup: None, dump: Some(dump) };
            let crashed = written.after_all(swap().take(done));
            &&& crashed.opened() == log || crashed.opened() == dump
            &&& done <= 2 && log.len() > 0 ==> crashed.opened() == log
            &&& done >= 3 && dump.len() > 0 ==> crashed.opened() == dump
            &&& !holds_records(crashed.recovered().backup)
            &&& !holds_records(crashed.recovered().dump)
        }),
{
    let written = FileSet { main: Some(log), backup: None, dump: Some(dump) };
    lemma_prefixes(written);
    let crashed = written.after_all(swap().take(done));
    let steps = recovery(holds_records(crashed.main), holds_records(crashed.backup), holds_records(crashed.dump));
    lemma_two_steps(crashed, steps);
    if steps.len() == 0 {
        assert(steps =~= Seq::<FileStep>::empty());
    }
    if log.len() == 0 && dump.len() == 0 {
        assert(log =~= dump);
    }
    if log.len() == 0 {
        assert(log =~= Seq::<T>::empty());
    }
    if dump.len() == 0 {
        assert(dump =~= Seq::<T>::empty());
    }
}

/// Crash recovery at the open: after a crash at any point of the swap, the
/// lines that an open is given are the lines of the log before the
/// compaction or the lines of the compacted log, so the store opens with the
/// entries that one of the two stands for.
pub proof fn lemma_open_after_crash(log: Seq<Seq<char>>, entries: Seq<(Seq<char>, EntryView)>, done: int)
    requires
        0 <= done <= swap().len(),
    ensures
        ({
            let written = FileSet {
                main: Some(log),
                backup: None,
                dump: Some(crate::persistence::snapshot_lines(entries)),
            };
            let lines = written.after_all(swap().take(done)).opened();
            crate::storage::restore(lines) == crate::storage::restore(log) || crate::storage::restore(lines)
                == crate::storage::restore(crate::persistence::snapshot_lines(entries))
        }),
{
    lemma_recovery_opens_log_or_dump(log, crate::persistence::snapshot_lines(entries), done);
}

} // verus!
