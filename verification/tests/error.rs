use jsonl_db::error::{decimal_text, JsonlDBError};
use jsonl_db::util::{parent_dir, parent_dir_from, replace_dirname_from};

#[test]
fn messages() {
    assert_eq!(JsonlDBError::AlreadyOpen.message(), "The DB is already open");
    assert_eq!(JsonlDBError::NotOpen.message(), "The DB is not open");
    assert_eq!(JsonlDBError::NotStopped.message(), "The DB must be stopped to close the DB files");
    assert_eq!(JsonlDBError::NotPrimitive("[1]".to_string()).message(), "The value [1] is not a primitive");
    assert_eq!(JsonlDBError::InvalidOptions { reason: "x".to_string() }.message(), "Invalid options");
    assert_eq!(JsonlDBError::LockBusy.message(), "Lockfile is in use");
    assert_eq!(JsonlDBError::LockCompromised.message(), "Lockfile was compromised");
    assert_eq!(JsonlDBError::LockUnknown.message(), "Could not acquire lockfile");
    assert_eq!(JsonlDBError::io_error_from_reason("disk".to_string()).message(), "IO operation failed");
    assert_eq!(
        JsonlDBError::ParseError { line: Some(1204) }.message(),
        "Cannot open DB file: Invalid data in line 1204"
    );
    assert_eq!(JsonlDBError::ParseError { line: None }.message(), "Could not import JSON");
    assert_eq!(JsonlDBError::SerializeError { reason: "r".to_string() }.message(), "r");
    assert_eq!(JsonlDBError::AsyncError { reason: "gone".to_string() }.message(), "gone");
    assert_eq!(JsonlDBError::other("why").message(), "why");
}

#[test]
fn serde_errors_become_serialize_errors() {
    let e = serde_json::from_str::<serde_json::Value>("{").unwrap_err();
    match JsonlDBError::serde_to_string_failed(e) {
        JsonlDBError::SerializeError { reason } => assert_eq!(reason, "Failed to serialize to JSON"),
        other => panic!("unexpected {:?}", other),
    }
}

#[test]
fn decimal_numerals() {
    assert_eq!(decimal_text(0), "0");
    assert_eq!(decimal_text(7), "7");
    assert_eq!(decimal_text(10), "10");
    assert_eq!(decimal_text(9081726354), "9081726354");
    assert_eq!(decimal_text(usize::MAX), usize::MAX.to_string());
}

#[test]
fn parent_directories() {
    assert_eq!(parent_dir("dir/sub/db.jsonl").unwrap(), "dir/sub");
    assert_eq!(parent_dir("db.jsonl").unwrap(), ".");
    match parent_dir("/") {
        Err(JsonlDBError::IoError { reason }) => assert_eq!(reason, "\"/\" does not have a parent directory"),
        other => panic!("unexpected {:?}", other),
    }
    assert!(parent_dir("").is_err());
    assert_eq!(parent_dir_from("x", Some("".to_string())).unwrap(), ".");
    assert_eq!(parent_dir_from("x", Some("y".to_string())).unwrap(), "y");
    assert!(matches!(parent_dir_from("x", None), Err(JsonlDBError::IoError { .. })));
}

#[test]
fn lock_path_parts() {
    assert_eq!(
        replace_dirname_from(Some("dir".to_string()), Some("db.jsonl.lock".to_string()), "locks"),
        Some(("dir".to_string(), "locks".to_string(), "db.jsonl.lock".to_string()))
    );
    assert_eq!(
        replace_dirname_from(Some("".to_string()), Some("f".to_string()), "."),
        Some(("".to_string(), ".".to_string(), "f".to_string()))
    );
    assert_eq!(replace_dirname_from(None, Some("f".to_string()), "x"), None);
    assert_eq!(replace_dirname_from(Some("d".to_string()), None, "x"), None);
    assert_eq!(replace_dirname_from(None, None, "x"), None);
}
