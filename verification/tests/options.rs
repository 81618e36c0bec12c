use jsonl_db::db_options::{AutoCompressOptions, DBOptions, ThrottleFSOptions};
use jsonl_db::jsonldb_options::{JsonlDBOptions, JsonlDBOptionsAutoCompress, JsonlDBOptionsThrottleFS};

#[test]
fn defaults() {
    let o = DBOptions::default();
    assert!(!o.ignore_read_errors);
    assert_eq!(o.lockfile_directory, ".");
    assert!(o.index_paths.is_empty());
    assert_eq!(o.auto_compress.size_factor, 0);
    assert_eq!(o.auto_compress.size_factor_min_size, 0);
    assert_eq!(o.auto_compress.interval_ms, 0);
    assert_eq!(o.auto_compress.interval_min_changes, 1);
    assert!(!o.auto_compress.on_close);
    assert!(!o.auto_compress.on_open);
    assert_eq!(o.throttle_fs.interval_ms, 0);
    assert_eq!(o.throttle_fs.max_buffered_commands, usize::MAX);
    let a = AutoCompressOptions::default();
    assert_eq!(a.interval_min_changes, 1);
    let t = ThrottleFSOptions::default();
    assert_eq!(t.max_buffered_commands, usize::MAX);
    let copy = o.duplicate();
    assert_eq!(copy.lockfile_directory, ".");
}

#[test]
fn missing_options_take_their_defaults() {
    let none: Option<JsonlDBOptions> = None;
    let o: DBOptions = none.into();
    assert_eq!(o.lockfile_directory, ".");
    assert_eq!(o.auto_compress.interval_min_changes, 1);
    let o: DBOptions = JsonlDBOptions::default().into();
    assert!(!o.ignore_read_errors);
    assert_eq!(o.throttle_fs.max_buffered_commands, usize::MAX);
}

#[test]
fn given_options_are_taken_over() {
    let given = JsonlDBOptions {
        ignore_read_errors: Some(true),
        throttle_fs: Some(JsonlDBOptionsThrottleFS { interval_ms: 250, max_buffered_commands: Some(7) }),
        auto_compress: Some(JsonlDBOptionsAutoCompress {
            size_factor: Some(2),
            size_factor_minimum_size: Some(100),
            interval_ms: None,
            interval_min_changes: Some(5),
            on_close: Some(true),
            on_open: None,
        }),
        lockfile_directory: Some("/tmp/locks".to_string()),
        index_paths: Some(vec!["/type".to_string()]),
    };
    let o: DBOptions = Some(given).into();
    assert!(o.ignore_read_errors);
    assert_eq!(o.throttle_fs.interval_ms, 250);
    assert_eq!(o.throttle_fs.max_buffered_commands, 7);
    assert_eq!(o.auto_compress.size_factor, 2);
    assert_eq!(o.auto_compress.size_factor_min_size, 100);
    assert_eq!(o.auto_compress.interval_ms, 0);
    assert_eq!(o.auto_compress.interval_min_changes, 5);
    assert!(o.auto_compress.on_close);
    assert!(!o.auto_compress.on_open);
    assert_eq!(o.lockfile_directory, "/tmp/locks");
    assert_eq!(o.index_paths, vec!["/type".to_string()]);

    let throttle = JsonlDBOptionsThrottleFS { interval_ms: 3, max_buffered_commands: None };
    assert_eq!(throttle.resolve().max_buffered_commands, usize::MAX);
    assert_eq!(throttle.resolve().interval_ms, 3);
}
