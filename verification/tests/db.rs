use jsonl_db::bg_thread::Command;
use jsonl_db::db::{get_or_convert_entry, js_value_of, primitive_text, Closed, Request, RsonlDB};
use jsonl_db::json::JsonKind;
use jsonl_db::db_options::DBOptions;
use jsonl_db::entry::DBEntry;
use jsonl_db::error::JsonlDBError;
use jsonl_db::js_values::JsValue;
use jsonl_db::jsonldb_options::JsonlDBOptions;
use jsonl_db::lockfile::{LockAction, LockProbe, Lockfile, Timestamp};
use jsonl_db::JsonlDB;

fn lines(text: &[&str]) -> Vec<String> {
    text.iter().map(|l| l.to_string()).collect()
}

fn held() -> Lockfile {
    let mut lock = Lockfile::new("db.jsonl.lock".to_string(), 10_000);
    lock.created(Timestamp { seconds: 1, nanos: 0 });
    lock
}

fn indexed() -> JsonlDBOptions {
    JsonlDBOptions {
        ignore_read_errors: None,
        throttle_fs: None,
        auto_compress: None,
        lockfile_directory: None,
        index_paths: Some(vec!["/type".to_string(), "/a/b".to_string()]),
    }
}

fn open_db(log: &[&str]) -> JsonlDB {
    let mut db = JsonlDB::new("db.jsonl".to_string(), Some(indexed()));
    db.open(&held(), &lines(log)).unwrap();
    db
}

fn keys_of(values: &[(String, JsValue)]) -> Vec<String> {
    let mut keys: Vec<String> = values.iter().map(|v| v.0.clone()).collect();
    keys.sort();
    keys
}

#[test]
fn lifecycle_goes_closed_opened_half_closed_closed() {
    let mut db = JsonlDB::new("db.jsonl".to_string(), None);
    assert!(!db.is_open());
    assert!(matches!(db.size(), Err(JsonlDBError::NotOpen)));
    assert!(matches!(db.has("a".to_string()), Err(JsonlDBError::NotOpen)));
    assert!(matches!(db.get("a".to_string()), Err(JsonlDBError::NotOpen)));
    assert!(matches!(db.get_keys(), Err(JsonlDBError::NotOpen)));
    assert!(matches!(db.get_keys_stringified(), Err(JsonlDBError::NotOpen)));
    assert!(matches!(db.delete("a".to_string()), Err(JsonlDBError::NotOpen)));
    assert!(matches!(db.clear(), Err(JsonlDBError::NotOpen)));
    assert!(matches!(db.set_primitive("a".to_string(), "1"), Err(JsonlDBError::NotOpen)));
    assert!(matches!(
        db.set_object("a".to_string(), 1, "{}".to_string(), vec![]),
        Err(JsonlDBError::NotOpen)
    ));
    assert!(matches!(db.compress(1), Err(JsonlDBError::NotOpen)));
    assert!(matches!(db.dump("x".to_string(), 1), Err(JsonlDBError::NotOpen)));
    assert!(matches!(db.stop(), Err(JsonlDBError::NotOpen)));
    assert!(matches!(db.half_close(), Err(JsonlDBError::NotOpen)));
    assert!(matches!(db.close(), Err(JsonlDBError::NotStopped)));
    assert!(matches!(db.export_json(false), Err(JsonlDBError::NotOpen)));
    assert!(matches!(db.import_json_string("{}".to_string()), Err(JsonlDBError::NotOpen)));
    assert_eq!(db.as_closed().unwrap().filename(), "db.jsonl");

    db.open(&held(), &lines(&["{\"k\":\"a\",\"v\":1}"])).unwrap();
    assert!(db.is_open());
    assert!(matches!(db.open(&held(), &lines(&[])), Err(JsonlDBError::AlreadyOpen)));
    assert!(matches!(db.as_closed(), Err(JsonlDBError::AlreadyOpen)));
    assert!(matches!(db.close(), Err(JsonlDBError::NotStopped)));
    assert_eq!(db.size().unwrap(), 1);
    db.set_object("o".to_string(), 41, "{\"n\":1}".to_string(), vec![]).unwrap();
    db.set_object("p".to_string(), 42, "[]".to_string(), vec![]).unwrap();

    assert!(matches!(db.compress_on_close(5), Ok(Request::Nothing)));
    assert!(matches!(db.stop(), Ok(Command::Stop)));
    assert!(matches!(db.compress(6), Ok(Request::Nothing)));
    assert!(matches!(db.dump("x".to_string(), 7), Ok(Request::Nothing)));
    db.half_close().unwrap();
    assert!(!db.is_open());
    assert!(matches!(db.size(), Err(JsonlDBError::NotOpen)));
    assert!(matches!(db.open(&held(), &lines(&[])), Err(JsonlDBError::AlreadyOpen)));
    assert_eq!(db.close().unwrap(), vec![41, 42]);
    assert!(!db.is_open());
    db.open(&held(), &lines(&[])).unwrap();
    assert_eq!(db.size().unwrap(), 0);
}

#[test]
fn compress_is_deduplicated() {
    let mut db = open_db(&[]);
    match db.compress(1).unwrap() {
        Request::Send(Command::Compress { done: Some(1) }) => {}
        other => panic!("unexpected {:?}", other),
    }
    assert!(matches!(db.compress(2), Ok(Request::Join(1))));
    db.compress_done().unwrap();
    assert!(matches!(db.compress(3), Ok(Request::Send(Command::Compress { done: Some(3) }))));
    match db.dump("out.jsonl".to_string(), 4).unwrap() {
        Request::Send(Command::Dump { filename, done }) => {
            assert_eq!(filename, "out.jsonl");
            assert_eq!(done, 4);
        }
        other => panic!("unexpected {:?}", other),
    }
}

#[test]
fn compress_on_close_follows_the_option() {
    let options = JsonlDBOptions {
        ignore_read_errors: None,
        throttle_fs: None,
        auto_compress: Some(jsonl_db::jsonldb_options::JsonlDBOptionsAutoCompress {
            size_factor: None,
            size_factor_minimum_size: None,
            interval_ms: None,
            interval_min_changes: None,
            on_close: Some(true),
            on_open: None,
        }),
        lockfile_directory: None,
        index_paths: None,
    };
    let mut db = JsonlDB::new("db.jsonl".to_string(), Some(options));
    db.open(&held(), &lines(&[])).unwrap();
    assert!(matches!(
        db.compress_on_close(8),
        Ok(Request::Send(Command::Compress { done: Some(8) }))
    ));
}

#[test]
fn parse_tolerance() {
    let log = lines(&["{\"k\":\"a\",\"v\":1}", "{\"k\":\"b\",", "{\"k\":\"c\",\"v\":3}", ""]);
    let mut strict = JsonlDB::new("db.jsonl".to_string(), None);
    match strict.open(&held(), &log) {
        Err(JsonlDBError::ParseError { line: Some(2) }) => {}
        other => panic!("unexpected {:?}", other),
    }
    assert!(!strict.is_open());

    let mut options = JsonlDBOptions::default();
    options.ignore_read_errors = Some(true);
    let mut tolerant = JsonlDB::new("db.jsonl".to_string(), Some(options));
    tolerant.open(&held(), &log).unwrap();
    assert_eq!(tolerant.get_keys().unwrap(), vec!["a".to_string(), "c".to_string()]);

    let mut blank = JsonlDB::new("db.jsonl".to_string(), None);
    assert!(matches!(
        blank.open(&held(), &lines(&["{\"k\":\"a\",\"v\":1}", "   "])),
        Err(JsonlDBError::ParseError { line: Some(2) })
    ));
}

#[test]
fn primitives_only() {
    let mut db = open_db(&[]);
    assert!(db.set_primitive("n".to_string(), " 1.50 ").unwrap().is_none());
    db.set_primitive("s".to_string(), "\"x\"").unwrap();
    db.set_primitive("b".to_string(), "true").unwrap();
    db.set_primitive("z".to_string(), "null").unwrap();
    match db.set_primitive("o".to_string(), "{ \"a\" : 1 }") {
        Err(JsonlDBError::NotPrimitive(text)) => assert_eq!(text, "{\"a\":1}"),
        other => panic!("unexpected {:?}", other),
    }
    assert!(matches!(db.set_primitive("l".to_string(), "[1]"), Err(JsonlDBError::NotPrimitive(_))));
    assert!(matches!(
        db.set_primitive("l".to_string(), "[1"),
        Err(JsonlDBError::ParseError { line: None })
    ));
    assert_eq!(db.size().unwrap(), 4);
    match db.get("n".to_string()).unwrap() {
        Some(JsValue::Primitive(text)) => assert_eq!(text, "1.5"),
        other => panic!("unexpected {:?}", other),
    }
    match db.set_primitive("n".to_string(), "2").unwrap() {
        Some(DBEntry::Native(text)) => assert_eq!(text, "1.5"),
        other => panic!("unexpected {:?}", other),
    }
    assert_eq!(db.get_keys_stringified().unwrap(), "[\"n\",\"s\",\"b\",\"z\"]");
}

#[test]
fn get_tells_primitives_objects_and_handles() {
    let mut db = open_db(&["{\"k\":\"o\",\"v\":{\"type\":\"x\"}}", "{\"k\":\"l\",\"v\":[1,2]}", "{\"k\":\"n\",\"v\":7}"]);
    assert!(db.get("missing".to_string()).unwrap().is_none());
    assert!(matches!(db.get("n".to_string()).unwrap(), Some(JsValue::Primitive(t)) if t == "7"));
    assert!(matches!(db.get("l".to_string()).unwrap(), Some(JsValue::Unbound(t)) if t == "[1,2]"));
    match db.get("o".to_string()).unwrap() {
        Some(JsValue::Unbound(text)) => assert_eq!(text, "{\"type\":\"x\"}"),
        other => panic!("unexpected {:?}", other),
    }
    assert!(db.bind("o".to_string(), 77).unwrap());
    assert!(matches!(db.get("o".to_string()).unwrap(), Some(JsValue::Object(77))));
    assert!(!db.bind("o".to_string(), 78).unwrap());
    assert!(!db.bind("missing".to_string(), 79).unwrap());
    assert_eq!(db.get_keys().unwrap(), vec!["o".to_string(), "l".to_string(), "n".to_string()]);
    match db.delete("o".to_string()).unwrap() {
        Some(DBEntry::Reference(text, 77)) => assert_eq!(text, "{\"type\":\"x\"}"),
        other => panic!("unexpected {:?}", other),
    }
    assert!(db.delete("o".to_string()).unwrap().is_none());
    assert!(!db.has("o".to_string()).unwrap());

    assert!(matches!(
        get_or_convert_entry(&DBEntry::Native("nonsense".to_string())),
        Err(JsonlDBError::ParseError { line: None })
    ));
    assert!(matches!(get_or_convert_entry(&DBEntry::Reference("nonsense".to_string(), 3)), Ok(JsValue::Object(3))));
}

#[test]
fn index_consistency() {
    let mut db = open_db(&[
        "{\"k\":\"d1\",\"v\":{\"type\":\"device\",\"a\":{\"b\":\"deep\"}}}",
        "{\"k\":\"d2\",\"v\":{\"type\":\"device\"}}",
        "{\"k\":\"s1\",\"v\":{\"type\":\"state\"}}",
        "{\"k\":\"n1\",\"v\":{\"type\":5}}",
        "{\"k\":\"t1\",\"v\":\"device\"}",
    ]);
    let all = db.get_many("".to_string(), "\u{10ffff}".to_string(), None).unwrap();
    assert_eq!(keys_of(&all), vec!["d1", "d2", "n1", "s1", "t1"]);
    let devices = db.get_many("".to_string(), "\u{10ffff}".to_string(), Some("/type=device".to_string())).unwrap();
    assert_eq!(keys_of(&devices), vec!["d1", "d2"]);
    let deep = db.get_many("".to_string(), "\u{10ffff}".to_string(), Some("/a/b=deep".to_string())).unwrap();
    assert_eq!(keys_of(&deep), vec!["d1"]);
    let states = db.get_many("".to_string(), "\u{10ffff}".to_string(), Some("/type=state".to_string())).unwrap();
    assert_eq!(keys_of(&states), vec!["s1"]);

    db.import_json_string("{\"d3\":{\"type\":\"device\"}}".to_string()).unwrap();
    db.delete("d1".to_string()).unwrap();
    let devices = db.get_many("".to_string(), "\u{10ffff}".to_string(), Some("/type=device".to_string())).unwrap();
    assert_eq!(keys_of(&devices), vec!["d2", "d3"]);
    let deep = db.get_many("".to_string(), "\u{10ffff}".to_string(), Some("/a/b=deep".to_string())).unwrap();
    assert!(deep.is_empty());

    db.set_object("r1".to_string(), 5, "{\"x\":1}".to_string(), vec!["/type=device".to_string(), "/type=odd".to_string()])
        .unwrap();
    let odd = db.get_many("".to_string(), "\u{10ffff}".to_string(), Some("/type=odd".to_string())).unwrap();
    assert_eq!(odd.len(), 1);
    assert!(matches!(&odd[0], (k, JsValue::Object(5)) if k == "r1"));

    db.clear().unwrap();
    let devices = db.get_many("".to_string(), "\u{10ffff}".to_string(), Some("/type=device".to_string())).unwrap();
    assert!(devices.is_empty());
    assert_eq!(db.size().unwrap(), 0);
}

#[test]
fn an_overwritten_value_leaves_its_old_bucket() {
    let mut db = open_db(&[]);
    db.import_json_string("{\"k1\":{\"type\":\"a\"}}".to_string()).unwrap();
    let a = db.get_many("".to_string(), "z".to_string(), Some("/type=a".to_string())).unwrap();
    assert_eq!(keys_of(&a), vec!["k1"]);

    db.import_json_string("{\"k1\":{\"type\":\"b\"}}".to_string()).unwrap();
    let a = db.get_many("".to_string(), "z".to_string(), Some("/type=a".to_string())).unwrap();
    let b = db.get_many("".to_string(), "z".to_string(), Some("/type=b".to_string())).unwrap();
    assert!(a.is_empty());
    assert_eq!(keys_of(&b), vec!["k1"]);

    db.set_primitive("k1".to_string(), "7").unwrap();
    let b = db.get_many("".to_string(), "z".to_string(), Some("/type=b".to_string())).unwrap();
    assert!(b.is_empty());
    assert!(db.has("k1".to_string()).unwrap());

    db.import_json_string("{\"k1\":{\"type\":\"b\"}}".to_string()).unwrap();
    db.set_object("k1".to_string(), 3, "{\"type\":\"c\"}".to_string(), vec!["/type=c".to_string()]).unwrap();
    let b = db.get_many("".to_string(), "z".to_string(), Some("/type=b".to_string())).unwrap();
    let c = db.get_many("".to_string(), "z".to_string(), Some("/type=c".to_string())).unwrap();
    assert!(b.is_empty());
    assert_eq!(keys_of(&c), vec!["k1"]);
}

#[test]
fn get_many_has_inclusive_bounds() {
    let db = open_db(&[
        "{\"k\":\"a\",\"v\":1}",
        "{\"k\":\"b\",\"v\":2}",
        "{\"k\":\"ba\",\"v\":3}",
        "{\"k\":\"c\",\"v\":4}",
        "{\"k\":\"é\",\"v\":5}",
    ]);
    let some = db.get_many("b".to_string(), "c".to_string(), None).unwrap();
    assert_eq!(keys_of(&some), vec!["b", "ba", "c"]);
    let one = db.get_many("b".to_string(), "b".to_string(), None).unwrap();
    assert_eq!(keys_of(&one), vec!["b"]);
    let none = db.get_many("c".to_string(), "b".to_string(), None).unwrap();
    assert!(none.is_empty());
    let wide = db.get_many("c".to_string(), "\u{10ffff}".to_string(), None).unwrap();
    assert_eq!(keys_of(&wide), vec!["c", "é"]);
    let unknown = db.get_many("a".to_string(), "b".to_string(), Some("/type=none".to_string())).unwrap();
    assert_eq!(keys_of(&unknown), vec!["a", "b"]);
}

#[test]
fn import_inserts_every_member() {
    let mut db = open_db(&["{\"k\":\"b\",\"v\":0}"]);
    let replaced = db.import_json_string("{\"b\": [1, 2], \"a\": {\"type\": \"t\"}}".to_string()).unwrap();
    assert_eq!(replaced.len(), 1);
    assert!(matches!(&replaced[0], DBEntry::Native(t) if t == "0"));
    assert_eq!(db.get_keys().unwrap(), vec!["b".to_string(), "a".to_string()]);
    assert!(matches!(db.get("b".to_string()).unwrap(), Some(JsValue::Unbound(t)) if t == "[1,2]"));
    assert!(matches!(
        db.import_json_string("[1]".to_string()),
        Err(JsonlDBError::ParseError { line: None })
    ));
    assert!(matches!(
        db.import_json_string("{\"a\":".to_string()),
        Err(JsonlDBError::ParseError { line: None })
    ));
    assert_eq!(db.size().unwrap(), 2);
}

#[test]
fn export_renders_one_object() {
    let mut db = open_db(&["{\"k\":\"b\",\"v\":[1,2]}", "{\"k\":\"a\",\"v\":{\"t\":\"x\"}}"]);
    assert_eq!(db.export_json(false).unwrap(), "{\"a\":{\"t\":\"x\"},\"b\":[1,2]}");
    assert_eq!(
        db.export_json(true).unwrap(),
        "{\n  \"a\": {\n    \"t\": \"x\"\n  },\n  \"b\": [\n    1,\n    2\n  ]\n}"
    );
    db.set_object("bad".to_string(), 1, "{oops".to_string(), vec![]).unwrap();
    match db.export_json(false) {
        Err(JsonlDBError::SerializeError { reason }) => assert_eq!(reason, "Failed to serialize to JSON"),
        other => panic!("unexpected {:?}", other),
    }
}

#[test]
fn closed_store_keeps_name_and_options() {
    let mut options = DBOptions::default();
    options.ignore_read_errors = true;
    let db = RsonlDB::<Closed>::new("dir/db.jsonl".to_string(), options);
    assert_eq!(db.filename(), "dir/db.jsonl");
    assert!(db.get_options().ignore_read_errors);
    assert!(!db.is_open());
    let opened = db.open(&held(), &lines(&["junk", "{\"k\":\"a\",\"v\":1}"])).unwrap();
    assert!(opened.is_open());
    assert_eq!(opened.filename(), "dir/db.jsonl");
    assert_eq!(opened.all_keys(), vec!["a".to_string()]);
    assert!(opened.has(&"a".to_string()));
    assert_eq!(opened.size(), 1);
    let half = opened.close();
    assert!(!half.is_open());
    let (closed, released) = half.close();
    assert!(released.is_empty());
    assert_eq!(closed.filename(), "dir/db.jsonl");
}

#[test]
fn values_are_told_by_their_kind() {
    assert!(matches!(js_value_of("1", Some(JsonKind::Number)), Ok(JsValue::Primitive(t)) if t == "1"));
    assert!(matches!(js_value_of("null", Some(JsonKind::Null)), Ok(JsValue::Primitive(t)) if t == "null"));
    assert!(matches!(js_value_of("true", Some(JsonKind::Bool)), Ok(JsValue::Primitive(_))));
    assert!(matches!(js_value_of("\"s\"", Some(JsonKind::String)), Ok(JsValue::Primitive(_))));
    assert!(matches!(js_value_of("[1]", Some(JsonKind::Array)), Ok(JsValue::Unbound(t)) if t == "[1]"));
    assert!(matches!(js_value_of("{}", Some(JsonKind::Object)), Ok(JsValue::Unbound(t)) if t == "{}"));
    assert!(matches!(js_value_of("x", None), Err(JsonlDBError::ParseError { line: None })));

    assert!(matches!(primitive_text(Some((JsonKind::Number, "1.5".to_string()))), Ok(t) if t == "1.5"));
    assert!(matches!(
        primitive_text(Some((JsonKind::Array, "[1]".to_string()))),
        Err(JsonlDBError::NotPrimitive(t)) if t == "[1]"
    ));
    assert!(matches!(
        primitive_text(Some((JsonKind::Object, "{}".to_string()))),
        Err(JsonlDBError::NotPrimitive(_))
    ));
    assert!(matches!(primitive_text(None), Err(JsonlDBError::ParseError { line: None })));
    assert!(JsonKind::String.primitive());
    assert!(!JsonKind::Object.primitive());
}

#[test]
fn members_are_imported_in_order() {
    let db = RsonlDB::<Closed>::new("db.jsonl".to_string(), DBOptions::default());
    let mut opened = db.open(&held(), &lines(&["{\"k\":\"x\",\"v\":0}"])).unwrap();
    let members = vec![
        ("y".to_string(), "1".to_string()),
        ("x".to_string(), "2".to_string()),
        ("y".to_string(), "3".to_string()),
    ];
    let replaced = opened.import_members(&members);
    let texts: Vec<String> = replaced.iter().map(|e| e.text().to_string()).collect();
    assert_eq!(texts, vec!["0".to_string(), "1".to_string()]);
    assert_eq!(opened.all_keys(), vec!["x".to_string(), "y".to_string()]);
    assert_eq!(opened.storage().journal_len(), 2);
    assert_eq!(
        opened.storage().clone_journal(),
        vec!["{\"k\":\"x\",\"v\":2}".to_string(), "{\"k\":\"y\",\"v\":3}".to_string()]
    );
}

#[test]
fn a_store_opens_only_for_the_holder_of_its_lock() {
    let log = lines(&["{\"k\":\"a\",\"v\":1}"]);
    let fresh = LockProbe::Found { mtime: Timestamp { seconds: 1, nanos: 0 }, age_ms: Some(10) };

    let mut first = JsonlDB::new("db.jsonl".to_string(), None);
    let mut first_lock = Lockfile::new("db.jsonl.lock".to_string(), 10_000);
    assert!(matches!(first.open(&first_lock, &log), Err(JsonlDBError::LockBusy)));
    assert!(!first.is_open());
    assert!(matches!(first.lock_for_open(&first_lock, &LockProbe::Missing), Ok(LockAction::Create)));
    first_lock.created(Timestamp { seconds: 1, nanos: 0 });
    first.open(&first_lock, &log).unwrap();
    assert!(matches!(first.lock_for_open(&first_lock, &fresh), Err(JsonlDBError::AlreadyOpen)));

    let mut second = JsonlDB::new("db.jsonl".to_string(), None);
    let mut second_lock = Lockfile::new("db.jsonl.lock".to_string(), 10_000);
    assert!(matches!(second.lock_for_open(&second_lock, &fresh), Err(JsonlDBError::LockBusy)));
    assert_eq!(second_lock.mtime(), None);
    assert!(matches!(second.open(&second_lock, &log), Err(JsonlDBError::LockBusy)));
    assert!(!second.is_open());
    assert!(first.is_open());
    assert_eq!(first_lock.mtime(), Some(Timestamp { seconds: 1, nanos: 0 }));

    first.stop().unwrap();
    first.half_close().unwrap();
    first.close().unwrap();
    assert!(first_lock.release(Some(Timestamp { seconds: 1, nanos: 0 })));
    assert!(matches!(second.lock_for_open(&second_lock, &LockProbe::Missing), Ok(LockAction::Create)));
    second_lock.created(Timestamp { seconds: 9, nanos: 0 });
    second.open(&second_lock, &log).unwrap();
    assert_eq!(second.get_keys().unwrap(), vec!["a".to_string()]);

    let closed = RsonlDB::<Closed>::new("db.jsonl".to_string(), DBOptions::default());
    assert!(matches!(closed.lock(&first_lock, &fresh), Err(JsonlDBError::LockBusy)));
    assert!(matches!(closed.open(&first_lock, &log), Err(JsonlDBError::LockBusy)));
}
