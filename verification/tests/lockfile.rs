use jsonl_db::error::JsonlDBError;
use jsonl_db::lockfile::{
    lockfile_directory, lockfile_name, CheckResult, LockAction, LockProbe, Lockfile, Timestamp,
    STALE_INTERVAL_MS,
};

const STALE: u128 = 10_000;

fn at(seconds: i64) -> Timestamp {
    Timestamp { seconds, nanos: 0 }
}

fn found(mtime: Timestamp, age_ms: u128) -> LockProbe {
    LockProbe::Found { mtime, age_ms: Some(age_ms) }
}

#[test]
fn check_tells_the_four_states() {
    let lock = Lockfile::new("db.jsonl.lock".to_string(), STALE);
    assert_eq!(lock.path(), "db.jsonl.lock");
    assert_eq!(lock.get_stale_interval_ms(), STALE);
    assert_eq!(lock.mtime(), None);
    assert_eq!(lock.check(&LockProbe::Missing), CheckResult::NoLock);
    assert_eq!(lock.check(&LockProbe::Unreadable), CheckResult::Unknown);
    assert_eq!(lock.check(&LockProbe::Found { mtime: at(5), age_ms: None }), CheckResult::Unknown);
    assert_eq!(lock.check(&found(at(5), STALE)), CheckResult::Active(at(5)));
    assert_eq!(lock.check(&found(at(5), STALE + 1)), CheckResult::Stale);
}

#[test]
fn lock_exclusion() {
    let mut first = Lockfile::new("db.jsonl.lock".to_string(), STALE);
    assert!(matches!(first.lock(&LockProbe::Missing), Ok(LockAction::Create)));
    first.created(at(100));
    assert_eq!(first.mtime(), Some(at(100)));

    let second = Lockfile::new("db.jsonl.lock".to_string(), STALE);
    assert!(matches!(second.lock(&found(at(100), 0)), Err(JsonlDBError::LockBusy)));
    assert!(matches!(second.lock(&found(at(100), STALE)), Err(JsonlDBError::LockBusy)));
    assert!(matches!(second.lock(&LockProbe::Unreadable), Err(JsonlDBError::LockUnknown)));

    assert!(first.release(Some(at(100))));
    assert_eq!(first.mtime(), None);
    assert!(matches!(second.lock(&LockProbe::Missing), Ok(LockAction::Create)));
}

#[test]
fn lock_take_over() {
    let mut a = Lockfile::new("db.jsonl.lock".to_string(), STALE);
    assert!(matches!(a.lock(&LockProbe::Missing), Ok(LockAction::Create)));
    a.created(at(100));

    let mut b = Lockfile::new("db.jsonl.lock".to_string(), STALE);
    assert!(matches!(b.lock(&found(at(100), STALE + 1)), Ok(LockAction::Touch)));
    b.touched(at(200));
    assert_eq!(b.mtime(), Some(at(200)));

    let c = Lockfile::new("db.jsonl.lock".to_string(), STALE);
    assert!(matches!(c.lock(&found(at(200), 3)), Err(JsonlDBError::LockBusy)));

    assert!(matches!(a.update(&found(at(200), 3)), Err(JsonlDBError::LockCompromised)));
    assert!(!a.release(Some(at(200))));
    assert_eq!(a.mtime(), None);
    assert!(b.release(Some(at(200))));
}

#[test]
fn update_refreshes_the_own_lock() {
    let mut lock = Lockfile::new("db.jsonl.lock".to_string(), STALE);
    assert!(matches!(lock.update(&found(at(1), 5)), Ok(LockAction::Touch)));
    lock.touched(at(7));
    assert!(matches!(lock.update(&found(at(7), 5_000)), Ok(LockAction::Touch)));
    assert!(matches!(lock.update(&found(at(8), 5_000)), Err(JsonlDBError::LockCompromised)));
    assert!(matches!(lock.update(&found(at(8), STALE + 1)), Ok(LockAction::Touch)));
    assert!(matches!(lock.update(&LockProbe::Missing), Ok(LockAction::Create)));
    assert!(matches!(lock.update(&LockProbe::Unreadable), Err(JsonlDBError::LockUnknown)));
    assert!(matches!(
        lock.update(&LockProbe::Found { mtime: at(7), age_ms: None }),
        Err(JsonlDBError::LockUnknown)
    ));
}

#[test]
fn release_removes_only_the_own_lock() {
    let mut lock = Lockfile::new("db.jsonl.lock".to_string(), STALE);
    assert!(!lock.release(Some(at(1))));
    lock.created(at(1));
    assert!(!lock.release(None));
    assert_eq!(lock.mtime(), None);
    lock.created(at(1));
    assert!(!lock.release(Some(Timestamp { seconds: 1, nanos: 1 })));
    lock.created(at(1));
    assert!(lock.release(Some(at(1))));
}

#[test]
fn lock_directory_and_name() {
    assert_eq!(STALE_INTERVAL_MS, 10_000);
    assert_eq!(lockfile_name("dir/db.jsonl"), "dir/db.jsonl.lock");
    assert_eq!(lockfile_directory(".", "dir"), "dir");
    assert_eq!(lockfile_directory("/var/locks", "dir"), "/var/locks");
    assert_eq!(lockfile_directory("./", "dir"), "./");
}
