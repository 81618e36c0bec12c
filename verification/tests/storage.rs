use jsonl_db::entry::DBEntry;
use jsonl_db::storage::{
    entry_of, format_line, member_shape, parse_line, replay_entries, Entry, SharedStorage, Storage,
};

fn native(text: &str) -> DBEntry {
    DBEntry::Native(text.to_string())
}

#[test]
fn format_line_quotes_the_key() {
    assert_eq!(format_line("a", "1"), "{\"k\":\"a\",\"v\":1}");
    assert_eq!(format_line("a\"b\n", "{\"t\":\"x\"}"), "{\"k\":\"a\\\"b\\n\",\"v\":{\"t\":\"x\"}}");
    assert_eq!(format_line("\u{1}\u{1f}é", "null"), "{\"k\":\"\\u0001\\u001fé\",\"v\":null}");
}

#[test]
fn parse_line_reads_upserts_and_deletes() {
    match parse_line("{\"k\":\"a\",\"v\":{\"t\": \"x\"}}") {
        Some(Entry::Value { k, v }) => {
            assert_eq!(k, "a");
            assert_eq!(v, "{\"t\":\"x\"}");
        }
        other => panic!("unexpected {:?}", other),
    }
    match parse_line(" {\"v\":[1, 2],\"k\":\"b\"} ") {
        Some(Entry::Value { k, v }) => {
            assert_eq!(k, "b");
            assert_eq!(v, "[1,2]");
        }
        other => panic!("unexpected {:?}", other),
    }
    match parse_line("{\"k\":\"a\"}") {
        Some(Entry::Delete { k }) => assert_eq!(k, "a"),
        other => panic!("unexpected {:?}", other),
    }
    assert!(parse_line("").is_none());
    assert!(parse_line("   ").is_none());
    assert!(parse_line("{\"k\":1}").is_none());
    assert!(parse_line("{\"v\":1}").is_none());
    assert!(parse_line("[\"a\",1]").is_none());
    assert!(parse_line("{\"k\":\"a\",\"v\":1,\"x\":2}").is_none());
    assert!(parse_line("{\"k\":\"a\",\"v\":1").is_none());
}

#[test]
fn coalescing() {
    let mut storage = SharedStorage::new(Storage::new());
    storage.insert("a".to_string(), native("1"));
    storage.insert("a".to_string(), native("2"));
    storage.insert("a".to_string(), native("3"));
    storage.remove("a".to_string());
    storage.insert("a".to_string(), native("4"));
    assert_eq!(storage.journal_len(), 1);
    assert_eq!(storage.drain_journal(), vec!["{\"k\":\"a\",\"v\":4}".to_string()]);
    assert_eq!(storage.journal_len(), 0);
}

fn text_of(storage: &SharedStorage, key: &str) -> Option<String> {
    storage.get(key).map(|e| e.text().to_string())
}

#[test]
fn order_preservation() {
    let mut storage = SharedStorage::new(Storage::new());
    assert!(storage.insert("a".to_string(), native("1")).is_none());
    assert!(storage.insert("b".to_string(), native("2")).is_none());
    assert!(storage.insert("c".to_string(), native("3")).is_none());
    assert_eq!(storage.keys(), vec!["a".to_string(), "b".to_string(), "c".to_string()]);
    match storage.insert("a".to_string(), native("4")) {
        Some(DBEntry::Native(old)) => assert_eq!(old, "1"),
        other => panic!("unexpected {:?}", other),
    }
    assert_eq!(storage.keys(), vec!["a".to_string(), "b".to_string(), "c".to_string()]);
    match storage.remove("a".to_string()) {
        Some(DBEntry::Native(old)) => assert_eq!(old, "4"),
        other => panic!("unexpected {:?}", other),
    }
    assert_eq!(storage.keys(), vec!["b".to_string(), "c".to_string()]);
    assert!(storage.remove("a".to_string()).is_none());
    storage.insert("a".to_string(), native("5"));
    assert_eq!(storage.keys(), vec!["b".to_string(), "c".to_string(), "a".to_string()]);
    assert_eq!(storage.len(), 3);
    assert!(storage.contains_key("c"));
    assert!(!storage.contains_key("d"));
    assert_eq!(text_of(&storage, "c"), Some("3".to_string()));
    assert_eq!(text_of(&storage, "d"), None);
    let cleared = storage.clear();
    let texts: Vec<String> = cleared.iter().map(|e| e.text().to_string()).collect();
    assert_eq!(texts, vec!["2".to_string(), "3".to_string(), "5".to_string()]);
    assert_eq!(storage.len(), 0);
    assert!(storage.keys().is_empty());
}

#[test]
fn journal_follows_the_changes() {
    let mut storage = SharedStorage::new(Storage::new());
    storage.insert("a".to_string(), native("1"));
    storage.insert("b".to_string(), DBEntry::Reference("{\"x\":1}".to_string(), 9));
    storage.remove("c".to_string());
    storage.insert("a".to_string(), native("2"));
    assert_eq!(storage.journal_len(), 3);
    assert_eq!(
        storage.clone_journal(),
        vec![
            "{\"k\":\"b\",\"v\":{\"x\":1}}".to_string(),
            "{\"k\":\"c\"}".to_string(),
            "{\"k\":\"a\",\"v\":2}".to_string(),
        ]
    );
    assert_eq!(storage.journal_len(), 3);
    {
        let inner = storage.lock();
        inner.journal.push(jsonl_db::entry::JournalEntry::Put("gone".to_string()));
    }
    assert_eq!(storage.journal_len(), 4);
    assert_eq!(storage.drain_journal().len(), 3);
    assert_eq!(storage.journal_len(), 0);
    assert!(storage.drain_journal().is_empty());
    assert_eq!(storage.len(), 2);
}

#[test]
fn drain_journal_if_asks_the_predicate() {
    let mut storage = SharedStorage::new(Storage::new());
    storage.insert("a".to_string(), native("1"));
    assert!(storage.drain_journal_if(|journal| journal.len() > 1).is_empty());
    assert_eq!(storage.journal_len(), 1);
    storage.insert("b".to_string(), native("2"));
    assert_eq!(storage.drain_journal_if(|journal| journal.len() > 1).len(), 2);
    assert_eq!(storage.journal_len(), 0);
}

#[test]
fn journal_equivalence() {
    let log = vec!["{\"k\":\"a\",\"v\":1}".to_string(), "{\"k\":\"b\",\"v\":2}".to_string()];
    let entries = jsonl_db::storage::parse_entries(&log, false).unwrap();
    let mut storage = SharedStorage::new(Storage { entries, journal: Vec::new() });
    let mut file = log.clone();
    let check = |storage: &SharedStorage, file: &Vec<String>| {
        let mut after = file.clone();
        for line in storage.clone_journal() {
            if line.is_empty() {
                after.clear();
            } else {
                after.push(line);
            }
        }
        let replayed = jsonl_db::storage::parse_entries(&after, false).unwrap();
        assert_eq!(replayed.len(), storage.len());
        for (key, value) in replayed.iter() {
            assert_eq!(storage.get(key).map(|e| e.text().to_string()), Some(value.text().to_string()));
        }
    };
    check(&storage, &file);
    storage.remove("a".to_string());
    check(&storage, &file);
    storage.insert("a".to_string(), native("3"));
    check(&storage, &file);
    storage.insert("c".to_string(), native("[\"x\"]"));
    check(&storage, &file);
    for line in storage.drain_journal() {
        file.push(line);
    }
    check(&storage, &file);
    storage.clear();
    check(&storage, &file);
    storage.insert("b".to_string(), native("null"));
    storage.remove("zz".to_string());
    check(&storage, &file);
}

#[test]
fn coalescing_bounds_the_records() {
    let mut storage = SharedStorage::new(Storage::new());
    for round in 0..10 {
        storage.insert("a".to_string(), native(&round.to_string()));
        storage.insert("b".to_string(), native(&round.to_string()));
        storage.remove("c".to_string());
    }
    assert_eq!(storage.drain_journal().len(), 3);
    storage.insert("a".to_string(), native("1"));
    storage.clear();
    storage.insert("a".to_string(), native("2"));
    storage.clear();
    storage.insert("b".to_string(), native("3"));
    assert!(storage.drain_journal().len() <= 2 + 2);
}

#[test]
fn replay_skips_or_fails_on_bad_lines() {
    let log = vec![
        "{\"k\":\"a\",\"v\":1}".to_string(),
        "not json".to_string(),
        "{\"k\":\"a\"}".to_string(),
        "{\"k\":\"b\",\"v\":\"\\u00e9\\n\"}".to_string(),
        "{\"k\":7,\"v\":1}".to_string(),
    ];
    match jsonl_db::storage::parse_entries(&log, false) {
        Err(jsonl_db::error::JsonlDBError::ParseError { line: Some(2) }) => {}
        other => panic!("unexpected {:?}", other.map(|m| m.len())),
    }
    let entries = jsonl_db::storage::parse_entries(&log, true).unwrap();
    assert_eq!(entries.len(), 1);
    assert_eq!(entries.get("b").map(|e| e.text().to_string()), Some("\"é\\n\"".to_string()));
}

#[test]
fn keys_with_escapes_round_trip() {
    let key = "a\"b\\c\nd\te\u{0}\u{7f}é";
    let line = format_line(key, "1");
    match parse_line(&line) {
        Some(Entry::Value { k, v }) => {
            assert_eq!(k, key);
            assert_eq!(v, "1");
        }
        other => panic!("unexpected {:?}", other),
    }
    let line = jsonl_db::storage::format_delete(key);
    assert_eq!(line, "{\"k\":\"a\\\"b\\\\c\\nd\\te\\u0000\u{7f}é\"}");
    assert!(matches!(parse_line(&line), Some(Entry::Delete { k }) if k == key));
}

#[test]
fn entries_can_be_copied() {
    let e = DBEntry::Reference("{}".to_string(), 4);
    assert!(matches!(e.duplicate(), DBEntry::Reference(t, 4) if t == "{}"));
    let j = jsonl_db::entry::JournalEntry::Delete("k".to_string());
    assert!(matches!(j.duplicate(), jsonl_db::entry::JournalEntry::Delete(k) if k == "k"));
    assert!(j.touches(&"k".to_string()));
    assert!(!j.touches(&"l".to_string()));
    assert!(!jsonl_db::entry::JournalEntry::Clear.touches(&"k".to_string()));
    let mut storage = SharedStorage::new(Storage::new());
    storage.insert("k".to_string(), e);
    let entries = &storage.lock().entries;
    assert!(jsonl_db::storage::journal_entry_to_string(entries, &j).is_some());
    assert!(jsonl_db::storage::journal_entry_to_string(entries, &jsonl_db::entry::JournalEntry::Put("x".to_string()))
        .is_none());
    assert_eq!(
        jsonl_db::storage::journal_entry_to_string(entries, &jsonl_db::entry::JournalEntry::Clear),
        Some(String::new())
    );
}

fn pair(name: &str, text: &str) -> (String, String) {
    (name.to_string(), text.to_string())
}

#[test]
fn members_have_the_shape_of_a_record() {
    assert_eq!(member_shape(&vec![pair("k", "\"a\"")]), Some(("\"a\"".to_string(), None)));
    assert_eq!(
        member_shape(&vec![pair("k", "\"a\""), pair("v", "1")]),
        Some(("\"a\"".to_string(), Some("1".to_string())))
    );
    assert_eq!(
        member_shape(&vec![pair("v", "[2]"), pair("k", "7")]),
        Some(("7".to_string(), Some("[2]".to_string())))
    );
    assert_eq!(member_shape(&vec![]), None);
    assert_eq!(member_shape(&vec![pair("v", "1")]), None);
    assert_eq!(member_shape(&vec![pair("k", "1"), pair("k", "2")]), None);
    assert_eq!(member_shape(&vec![pair("k", "1"), pair("x", "2")]), None);
    assert_eq!(member_shape(&vec![pair("k", "1"), pair("v", "2"), pair("x", "3")]), None);
    assert_eq!(member_shape(&vec![pair("K", "1")]), None);
}

#[test]
fn parsed_lines_are_replayed() {
    let parsed = vec![
        Some(entry_of("a".to_string(), Some("1".to_string()))),
        None,
        Some(entry_of("b".to_string(), Some("2".to_string()))),
        Some(entry_of("a".to_string(), None)),
        Some(entry_of("c".to_string(), Some("3".to_string()))),
        Some(entry_of("b".to_string(), Some("4".to_string()))),
    ];
    assert!(matches!(entry_of("a".to_string(), None), Entry::Delete { k } if k == "a"));
    assert!(matches!(entry_of("a".to_string(), Some("1".to_string())), Entry::Value { k, v } if k == "a" && v == "1"));
    match replay_entries(&parsed, false) {
        Err(jsonl_db::error::JsonlDBError::ParseError { line: Some(2) }) => {}
        other => panic!("unexpected {:?}", other.map(|m| m.len())),
    }
    let entries = replay_entries(&parsed, true).unwrap();
    let keys: Vec<String> = entries.keys().cloned().collect();
    assert_eq!(keys, vec!["b".to_string(), "c".to_string()]);
    assert_eq!(entries.get("b").map(|e| e.text().to_string()), Some("4".to_string()));
    assert_eq!(replay_entries(&vec![], false).unwrap().len(), 0);
}
