use jsonl_db::bg_thread::{Command, Wake};
use jsonl_db::db_options::{AutoCompressOptions, DBOptions, ThrottleFSOptions};
use jsonl_db::entry::DBEntry;
use jsonl_db::error::JsonlDBError;
use jsonl_db::files::{swap_steps, FileRole, FileStep};
use jsonl_db::lockfile::{LockAction, LockProbe, Lockfile, Timestamp};
use jsonl_db::persistence::{
    dump_tail, elapsed, is_stop_cmd, need_to_compress_by_size, need_to_compress_by_time, plan_writes,
    render_dump, should_write, Action, FileOp, Persistence, IDLE_MS,
};
use jsonl_db::storage::{parse_entries, SharedStorage, Storage};

fn native(text: &str) -> DBEntry {
    DBEntry::Native(text.to_string())
}

fn write(file: &mut String, ops: &[FileOp]) {
    for op in ops {
        match op {
            FileOp::Truncate => file.clear(),
            FileOp::Append(text) => file.push_str(text),
        }
    }
}

fn lines_of(file: &str) -> Vec<String> {
    file.lines().map(|l| l.to_string()).collect()
}

fn reopen(file: &str) -> SharedStorage {
    let entries = parse_entries(&lines_of(file), false).unwrap();
    SharedStorage::new(Storage { entries, journal: Vec::new() })
}

fn text_of(storage: &SharedStorage, key: &str) -> Option<String> {
    storage.get(key).map(|e| e.text().to_string())
}

fn idle_round(state: &mut Persistence, storage: &mut SharedStorage, opts: &DBOptions, file: &mut String, now: u128) {
    match state.persistence_thread(Wake::TimedOut, storage, opts, now) {
        Action::Write { ops, stop } => {
            assert!(!stop);
            write(file, &ops);
        }
        other => panic!("unexpected {:?}", other),
    }
}

fn stop_round(state: &mut Persistence, storage: &mut SharedStorage, opts: &DBOptions, file: &mut String, now: u128) {
    match state.persistence_thread(Wake::Received(Command::Stop), storage, opts, now) {
        Action::Write { ops, stop } => {
            assert!(stop);
            write(file, &ops);
        }
        other => panic!("unexpected {:?}", other),
    }
}

struct Files {
    main: Option<String>,
    backup: Option<String>,
    dump: Option<String>,
}

impl Files {
    fn slot(&mut self, role: FileRole) -> &mut Option<String> {
        match role {
            FileRole::Main => &mut self.main,
            FileRole::Backup => &mut self.backup,
            FileRole::Dump => &mut self.dump,
        }
    }

    fn step(&mut self, step: FileStep) {
        match step {
            FileStep::SyncDir => {}
            FileStep::Rename(from, to) => {
                let content = self.slot(from).take().expect("rename of a missing file");
                *self.slot(to) = Some(content);
            }
            FileStep::Remove(role) => {
                self.slot(role).take().expect("removal of a missing file");
            }
            FileStep::Discard(role) => {
                self.slot(role).take();
            }
        }
    }
}

fn compact(state: &mut Persistence, storage: &mut SharedStorage, opts: &DBOptions, files: &mut Files, now: u128) {
    match state.persistence_thread(Wake::Received(Command::Compress { done: None }), storage, opts, now) {
        Action::Compress { ops, done } => {
            assert_eq!(done, None);
            write(files.main.as_mut().unwrap(), &ops);
        }
        other => panic!("unexpected {:?}", other),
    }
    let (entries, journal_len) = render_dump(storage);
    let mut dump = String::new();
    write(&mut dump, &entries);
    write(&mut dump, &dump_tail(storage, journal_len));
    files.dump = Some(dump);
    for step in swap_steps() {
        files.step(step);
    }
    state.finish_compress(storage.len(), now);
}

#[test]
fn basic_upsert_delete_round_trip() {
    let opts = DBOptions::default();
    let mut storage = SharedStorage::new(Storage::new());
    let mut state = Persistence::new(0, 0);
    let mut file = String::new();
    storage.insert("a".to_string(), native("1"));
    idle_round(&mut state, &mut storage, &opts, &mut file, 1);
    storage.insert("b".to_string(), native("{\"t\":\"x\"}"));
    idle_round(&mut state, &mut storage, &opts, &mut file, 2);
    storage.remove("a".to_string());
    stop_round(&mut state, &mut storage, &opts, &mut file, 3);
    assert_eq!(file, "{\"k\":\"a\",\"v\":1}\n{\"k\":\"b\",\"v\":{\"t\":\"x\"}}\n{\"k\":\"a\"}\n");
    assert_eq!(state.uncompressed_size, 3);
    assert_eq!(state.changes_since_compress, 3);
    assert_eq!(state.last_write, 3);

    let reopened = reopen(&file);
    assert_eq!(reopened.len(), 1);
    assert_eq!(text_of(&reopened, "b"), Some("{\"t\":\"x\"}".to_string()));
    assert!(!reopened.contains_key("a"));
}

#[test]
fn compaction_swap() {
    let opts = DBOptions::default();
    let start = "{\"k\":\"a\",\"v\":1}\n{\"k\":\"b\",\"v\":{\"t\":\"x\"}}\n{\"k\":\"a\"}\n";
    let mut storage = reopen(start);
    let mut state = Persistence::new(0, storage.len());
    let mut files = Files { main: Some(start.to_string()), backup: None, dump: None };
    compact(&mut state, &mut storage, &opts, &mut files, 7);
    assert_eq!(files.main, Some("{\"k\":\"b\",\"v\":{\"t\":\"x\"}}\n".to_string()));
    assert_eq!(files.backup, None);
    assert_eq!(files.dump, None);
    assert_eq!(state.uncompressed_size, 1);
    assert_eq!(state.changes_since_compress, 0);
    assert_eq!(state.last_compress, 7);
}

#[test]
fn compaction_is_idempotent() {
    let opts = DBOptions::default();
    let mut storage = SharedStorage::new(Storage::new());
    storage.insert("x".to_string(), native("[1,2]"));
    storage.insert("y".to_string(), native("\"s\""));
    storage.insert("x".to_string(), native("[3]"));
    let mut state = Persistence::new(0, 0);
    let mut files = Files { main: Some(String::new()), backup: None, dump: None };
    compact(&mut state, &mut storage, &opts, &mut files, 5);
    let once = files.main.clone();
    assert_eq!(once, Some("{\"k\":\"x\",\"v\":[3]}\n{\"k\":\"y\",\"v\":\"s\"}\n".to_string()));
    let counters = (state.uncompressed_size, state.changes_since_compress);
    compact(&mut state, &mut storage, &opts, &mut files, 5);
    assert_eq!(files.main, once);
    assert_eq!(files.backup, None);
    assert_eq!(files.dump, None);
    assert_eq!((state.uncompressed_size, state.changes_since_compress), counters);
    assert_eq!(storage.journal_len(), 0);
    assert_eq!(storage.keys(), vec!["x".to_string(), "y".to_string()]);
}

#[test]
fn coalescing_reaches_the_file_as_one_record() {
    let opts = DBOptions::default();
    let mut storage = SharedStorage::new(Storage::new());
    let mut state = Persistence::new(0, 0);
    let mut file = String::new();
    storage.insert("a".to_string(), native("1"));
    storage.insert("a".to_string(), native("2"));
    storage.insert("a".to_string(), native("3"));
    storage.remove("a".to_string());
    storage.insert("a".to_string(), native("4"));
    stop_round(&mut state, &mut storage, &opts, &mut file, 1);
    assert_eq!(file, "{\"k\":\"a\",\"v\":4}\n");
}

fn round(state: &mut Persistence, storage: &mut SharedStorage, opts: &DBOptions, files: &mut Files, now: u128) -> bool {
    match state.next_command(&opts.auto_compress, storage.len(), now) {
        Some(Command::Compress { done: None }) => {
            compact(state, storage, opts, files, now);
            true
        }
        None => {
            idle_round(state, storage, opts, files.main.as_mut().unwrap(), now);
            false
        }
        other => panic!("unexpected {:?}", other),
    }
}

#[test]
fn size_triggered_auto_compact() {
    let mut opts = DBOptions::default();
    opts.auto_compress.size_factor = 2;
    opts.auto_compress.size_factor_min_size = 4;
    opts.throttle_fs.interval_ms = 0;
    let mut storage = SharedStorage::new(Storage::new());
    let mut state = Persistence::new(0, 0);
    let mut files = Files { main: Some(String::new()), backup: None, dump: None };
    let mut now: u128 = 0;
    let mut compactions = 0;
    for i in 1..=4 {
        storage.insert("a".to_string(), native(&i.to_string()));
        now += 1;
        assert!(!round(&mut state, &mut storage, &opts, &mut files, now));
    }
    assert_eq!(lines_of(files.main.as_ref().unwrap()).len(), 4);
    assert_eq!(state.uncompressed_size, 4);
    storage.insert("a".to_string(), native("5"));
    for _ in 0..2 {
        now += 1;
        if round(&mut state, &mut storage, &opts, &mut files, now) {
            compactions += 1;
        }
    }
    assert_eq!(compactions, 1);
    assert_eq!(files.main, Some("{\"k\":\"a\",\"v\":5}\n".to_string()));
    assert_eq!(files.backup, None);
    assert_eq!(files.dump, None);
    assert_eq!(state.uncompressed_size, 1);
    assert_eq!(storage.journal_len(), 0);
}

#[test]
fn size_trigger_formula() {
    let mut opts = AutoCompressOptions::default();
    assert!(!need_to_compress_by_size(&opts, 0, 100));
    opts.size_factor = 3;
    opts.size_factor_min_size = 10;
    assert!(!need_to_compress_by_size(&opts, 1, 9));
    assert!(need_to_compress_by_size(&opts, 1, 10));
    assert!(!need_to_compress_by_size(&opts, 4, 11));
    assert!(need_to_compress_by_size(&opts, 4, 12));
    assert!(need_to_compress_by_size(&opts, 0, 10));
    opts.size_factor = u32::MAX;
    opts.size_factor_min_size = 0;
    assert!(!need_to_compress_by_size(&opts, u32::MAX, u32::MAX));
    assert!(need_to_compress_by_size(&opts, 1, u32::MAX));
}

#[test]
fn time_trigger_formula() {
    let mut opts = AutoCompressOptions::default();
    assert!(!need_to_compress_by_time(&opts, 1_000_000, 50));
    opts.interval_ms = 100;
    assert!(!need_to_compress_by_time(&opts, 100, 1));
    assert!(need_to_compress_by_time(&opts, 101, 1));
    assert!(!need_to_compress_by_time(&opts, 101, 0));
    opts.interval_min_changes = 3;
    assert!(!need_to_compress_by_time(&opts, 500, 2));
    assert!(need_to_compress_by_time(&opts, 500, 3));
}

#[test]
fn compaction_on_open_fires_once() {
    let mut opts = AutoCompressOptions::default();
    opts.on_open = true;
    let mut state = Persistence::new(10, 0);
    assert!(state.just_opened);
    assert!(matches!(state.next_command(&opts, 0, 10), Some(Command::Compress { done: None })));
    assert!(!state.just_opened);
    assert!(state.next_command(&opts, 0, 11).is_none());
}

#[test]
fn compaction_fires_on_an_empty_map() {
    let mut opts = AutoCompressOptions::default();
    opts.size_factor = 2;
    opts.size_factor_min_size = 2;
    let mut storage = SharedStorage::new(Storage::new());
    let mut state = Persistence::new(0, 0);
    let dbopts = DBOptions::default();
    let mut files = Files { main: Some(String::new()), backup: None, dump: None };
    storage.insert("a".to_string(), native("1"));
    idle_round(&mut state, &mut storage, &dbopts, files.main.as_mut().unwrap(), 1);
    storage.remove("a".to_string());
    idle_round(&mut state, &mut storage, &dbopts, files.main.as_mut().unwrap(), 2);
    assert_eq!(state.uncompressed_size, 2);
    assert!(state.next_command(&opts, storage.len(), 3).is_some());
    compact(&mut state, &mut storage, &dbopts, &mut files, 3);
    assert_eq!(files.main, Some(String::new()));
    assert_eq!(state.uncompressed_size, 0);
}

#[test]
fn write_is_throttled() {
    let throttle = ThrottleFSOptions { interval_ms: 100, max_buffered_commands: 2 };
    assert!(!should_write(0, true, 1000, &throttle));
    assert!(!should_write(1, false, 99, &throttle));
    assert!(should_write(1, false, 100, &throttle));
    assert!(should_write(1, true, 0, &throttle));
    assert!(!should_write(2, false, 0, &throttle));
    assert!(should_write(3, false, 0, &throttle));
    let open = ThrottleFSOptions::default();
    assert!(should_write(1, false, 0, &open));

    let mut opts = DBOptions::default();
    opts.throttle_fs = throttle;
    let mut storage = SharedStorage::new(Storage::new());
    let mut state = Persistence::new(1000, 0);
    let mut file = String::new();
    storage.insert("a".to_string(), native("1"));
    idle_round(&mut state, &mut storage, &opts, &mut file, 1050);
    assert_eq!(file, "");
    assert_eq!(storage.journal_len(), 1);
    assert_eq!(state.last_write, 1000);
    idle_round(&mut state, &mut storage, &opts, &mut file, 1100);
    assert_eq!(file, "{\"k\":\"a\",\"v\":1}\n");
    assert_eq!(state.last_write, 1100);
}

#[test]
fn clear_truncates_the_log() {
    let opts = DBOptions::default();
    let mut storage = SharedStorage::new(Storage::new());
    let mut state = Persistence::new(0, 0);
    let mut file = String::new();
    storage.insert("a".to_string(), native("1"));
    idle_round(&mut state, &mut storage, &opts, &mut file, 1);
    storage.insert("b".to_string(), native("2"));
    let cleared = storage.clear();
    assert_eq!(cleared.len(), 2);
    storage.insert("c".to_string(), native("3"));
    assert_eq!(storage.clone_journal(), vec!["".to_string(), "{\"k\":\"c\",\"v\":3}".to_string()]);
    idle_round(&mut state, &mut storage, &opts, &mut file, 2);
    assert_eq!(file, "{\"k\":\"c\",\"v\":3}\n");
    assert_eq!(state.uncompressed_size, 1);
    assert_eq!(state.changes_since_compress, 1);
}

#[test]
fn dump_leaves_the_journal() {
    let opts = DBOptions::default();
    let mut storage = SharedStorage::new(Storage::new());
    let mut state = Persistence::new(0, 0);
    storage.insert("a".to_string(), native("1"));
    let wake = Wake::Received(Command::Dump { filename: "backup.jsonl".to_string(), done: 9 });
    match state.persistence_thread(wake, &mut storage, &opts, 1) {
        Action::Dump { filename, done } => {
            assert_eq!(filename, "backup.jsonl");
            assert_eq!(done, 9);
        }
        other => panic!("unexpected {:?}", other),
    }
    assert_eq!(storage.journal_len(), 1);
    let (entries, journal_len) = render_dump(&storage);
    assert_eq!(journal_len, 1);
    storage.insert("b".to_string(), native("2"));
    let mut dump = String::new();
    write(&mut dump, &entries);
    write(&mut dump, &dump_tail(&storage, journal_len));
    assert_eq!(dump, "{\"k\":\"a\",\"v\":1}\n{\"k\":\"b\",\"v\":2}\n");
    assert_eq!(storage.journal_len(), 2);
    assert!(dump_tail(&storage, 5).is_empty());
}

#[test]
fn plan_writes_reads_the_empty_line_as_truncation() {
    let ops = plan_writes(vec!["x".to_string(), "".to_string(), "y".to_string()]);
    assert_eq!(ops.len(), 3);
    assert!(matches!(&ops[0], FileOp::Append(t) if t == "x\n"));
    assert!(matches!(&ops[1], FileOp::Truncate));
    assert!(matches!(&ops[2], FileOp::Append(t) if t == "y\n"));
}

#[test]
fn stop_is_told_from_other_wakes() {
    assert!(is_stop_cmd(&Wake::Received(Command::Stop)));
    assert!(!is_stop_cmd(&Wake::Received(Command::Compress { done: None })));
    assert!(!is_stop_cmd(&Wake::Closed));
    assert!(!is_stop_cmd(&Wake::TimedOut));
    assert_eq!(IDLE_MS, 20);
}

#[test]
fn lock_refresh_follows_the_stale_interval() {
    let mut state = Persistence::new(100, 0);
    assert!(!state.lock_refresh_due(10_099, 10_000));
    assert!(state.lock_refresh_due(10_100, 10_000));
    state.lock_refreshed(10_100);
    assert!(!state.lock_refresh_due(10_200, 10_000));
    assert_eq!(elapsed(5, 9), 0);
    assert_eq!(elapsed(9, 5), 4);
}

#[test]
fn a_failed_lock_refresh_ends_the_round() {
    let mut lock = Lockfile::new("db.jsonl.lock".to_string(), 10_000);
    lock.created(Timestamp { seconds: 1, nanos: 0 });
    let state = Persistence::new(0, 0);
    let mut storage = SharedStorage::new(Storage::new());
    storage.insert("a".to_string(), native("1"));
    let taken = LockProbe::Found { mtime: Timestamp { seconds: 2, nanos: 0 }, age_ms: Some(5) };
    let own = LockProbe::Found { mtime: Timestamp { seconds: 1, nanos: 0 }, age_ms: Some(9_000) };

    assert!(matches!(state.refresh_lock(&lock, &taken, 9_999), Ok(None)));
    assert!(matches!(state.refresh_lock(&lock, &taken, 10_000), Err(JsonlDBError::LockCompromised)));
    assert!(matches!(state.refresh_lock(&lock, &LockProbe::Unreadable, 10_000), Err(JsonlDBError::LockUnknown)));
    assert_eq!(storage.journal_len(), 1);
    assert_eq!(state.last_lock_refresh, 0);
    assert!(matches!(state.refresh_lock(&lock, &own, 10_000), Ok(Some(LockAction::Touch))));
    assert!(matches!(state.refresh_lock(&lock, &LockProbe::Missing, 12_000), Ok(Some(LockAction::Create))));
}

#[test]
fn a_due_compaction_is_served_as_a_wake() {
    let mut opts = AutoCompressOptions::default();
    opts.on_open = true;
    let mut state = Persistence::new(0, 0);
    assert!(matches!(
        state.next_wake(&opts, 0, 1),
        Some(Wake::Received(Command::Compress { done: None }))
    ));
    assert!(!state.just_opened);
    assert!(state.next_wake(&opts, 0, 2).is_none());
}
