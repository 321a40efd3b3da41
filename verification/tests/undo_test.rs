//! The undo log.
use ripsed::config::Config;
use ripsed::encoding::{decode, SourceEncoding};
use ripsed::undo::{
    join_jsonl, plan_undo, record_undo, record_undo_capped, split_jsonl, undo_list,
    undo_record_encoding, UndoEntry, UndoLog, UndoRecord,
};

/// A record as one line of JSON.
fn record_json(r: &UndoRecord) -> String {
    let mut map = serde_json::Map::new();
    map.insert("timestamp".to_string(), serde_json::Value::from(r.timestamp.as_str()));
    map.insert("file_path".to_string(), serde_json::Value::from(r.file_path.as_str()));
    let mut entry = serde_json::Map::new();
    entry.insert(
        "original_text".to_string(),
        serde_json::Value::from(r.entry.original_text.as_str()),
    );
    map.insert("entry".to_string(), serde_json::Value::Object(entry));
    if let Some(tag) = &r.encoding {
        map.insert("encoding".to_string(), serde_json::Value::from(tag.as_str()));
    }
    serde_json::Value::Object(map).to_string()
}

/// A record from one line of JSON.
fn json_record(line: &str) -> Option<UndoRecord> {
    let v: serde_json::Value = serde_json::from_str(line).ok()?;
    Some(UndoRecord {
        timestamp: v["timestamp"].as_str()?.to_string(),
        file_path: v["file_path"].as_str()?.to_string(),
        entry: UndoEntry {
            original_text: v["entry"]["original_text"].as_str()?.to_string(),
        },
        encoding: v["encoding"].as_str().map(|s| s.to_string()),
    })
}

fn to_jsonl(log: &UndoLog) -> String {
    join_jsonl(&log.all().iter().map(record_json).collect())
}

fn from_jsonl(content: &str, max_entries: usize) -> UndoLog {
    let records = split_jsonl(content).iter().filter_map(|l| json_record(l)).collect();
    UndoLog::from_records(records, max_entries)
}

#[test]
fn test_push_and_pop() {
    let mut log = UndoLog::new(100);
    log.push(UndoRecord {
        encoding: None,
        timestamp: "2026-01-01T00:00:00Z".to_string(),
        file_path: "test.txt".to_string(),
        entry: UndoEntry {
            original_text: "hello".to_string(),
        },
    });
    assert_eq!(log.len(), 1);
    let popped = log.pop(1);
    assert_eq!(popped.len(), 1);
    assert_eq!(popped[0].file_path, "test.txt");
    assert!(log.is_empty());
}

#[test]
fn test_pruning() {
    let mut log = UndoLog::new(2);
    for i in 0..5 {
        log.push(UndoRecord {
            encoding: None,
            timestamp: format!("2026-01-0{i}T00:00:00Z"),
            file_path: format!("file{i}.txt"),
            entry: UndoEntry {
                original_text: format!("content{i}"),
            },
        });
    }
    assert_eq!(log.len(), 2);
}

#[test]
fn test_jsonl_roundtrip() {
    let mut log = UndoLog::new(100);
    log.push(UndoRecord {
        encoding: None,
        timestamp: "2026-01-01T00:00:00Z".to_string(),
        file_path: "test.txt".to_string(),
        entry: UndoEntry {
            original_text: "original".to_string(),
        },
    });
    let jsonl = to_jsonl(&log);
    let loaded = from_jsonl(&jsonl, 100);
    assert_eq!(loaded.len(), 1);
}

fn record(path: &str, text: &str) -> UndoRecord {
    UndoRecord {
        encoding: None,
        timestamp: "2026-01-01T00:00:00Z".to_string(),
        file_path: path.to_string(),
        entry: UndoEntry {
            original_text: text.to_string(),
        },
    }
}

#[test]
fn pop_zero_is_noop() {
    let mut log = UndoLog::new(10);
    log.push(record("a.txt", "A"));
    log.push(record("b.txt", "B"));
    let popped = log.pop(0);
    assert!(popped.is_empty(), "pop(0) should return empty");
    assert_eq!(log.len(), 2, "pop(0) should not drain the log");
}

#[test]
fn pop_exceeds_length_drains_all() {
    let mut log = UndoLog::new(10);
    log.push(record("a.txt", "A"));
    log.push(record("b.txt", "B"));
    let popped = log.pop(100);
    assert_eq!(popped.len(), 2);
    assert!(log.is_empty());
}

#[test]
fn pop_returns_newest_first() {
    let mut log = UndoLog::new(10);
    log.push(record("a.txt", "first"));
    log.push(record("a.txt", "second"));
    log.push(record("a.txt", "third"));

    let popped = log.pop(3);
    assert_eq!(popped[0].entry.original_text, "third");
    assert_eq!(popped[1].entry.original_text, "second");
    assert_eq!(popped[2].entry.original_text, "first");
}

#[test]
fn prune_drops_oldest_not_newest() {
    let mut log = UndoLog::new(3);
    for i in 0..10 {
        log.push(record(&format!("file_{i}.txt"), &format!("v{i}")));
    }
    assert_eq!(log.len(), 3);
    // The three remaining should be files 7, 8, 9.
    let latest_three = log.recent(3);
    assert_eq!(latest_three[0].file_path, "file_7.txt");
    assert_eq!(latest_three[1].file_path, "file_8.txt");
    assert_eq!(latest_three[2].file_path, "file_9.txt");
}

#[test]
fn from_jsonl_skips_malformed_lines() {
    let good = record_json(&record("a.txt", "A"));
    let bad = "{{{ not valid json";
    let also_good = record_json(&record("b.txt", "B"));
    let mixed = format!("{good}\n{bad}\n{also_good}\n");

    let log = from_jsonl(&mixed, 100);
    assert_eq!(
        log.len(),
        2,
        "malformed lines should be skipped, good ones kept"
    );
}

#[test]
fn from_jsonl_tolerates_blank_and_crlf_lines() {
    let good = record_json(&record("a.txt", "A"));
    let mixed = format!("\n{good}\r\n\r\n");
    let log = from_jsonl(&mixed, 100);
    assert_eq!(log.len(), 1);
}

#[test]
fn empty_log_jsonl_is_empty_string() {
    let log = UndoLog::new(100);
    assert_eq!(to_jsonl(&log), "");
    let reparsed = from_jsonl("", 100);
    assert!(reparsed.is_empty());
}

#[test]
fn pop_actually_removes_from_log() {
    let mut log = UndoLog::new(10);
    log.push(record("a.txt", "A"));
    log.push(record("b.txt", "B"));
    let _ = log.pop(1);
    assert_eq!(log.len(), 1);
    let remaining = log.recent(1);
    assert_eq!(remaining[0].file_path, "a.txt");
}

#[test]
fn test_undo_log_roundtrip_for_json_mode() {
    let config = Config::default();
    let mut log = UndoLog::new(config.undo.max_entries);

    log.push(UndoRecord {
        encoding: None,
        timestamp: "999".to_string(),
        file_path: "/tmp/test_json_undo.txt".to_string(),
        entry: UndoEntry {
            original_text: "test content".to_string(),
        },
    });

    let jsonl = to_jsonl(&log);
    let reloaded = from_jsonl(&jsonl, config.undo.max_entries);
    assert_eq!(reloaded.len(), 1);

    let mut reloaded = reloaded;
    let popped = reloaded.pop(1);
    assert!(!popped.is_empty());
    assert_eq!(popped[0].entry.original_text, "test content");
}

#[test]
fn an_undo_puts_bytes_back() {
    let bytes = vec![0xFF, 0xFE, b'h', 0, b'i', 0];
    let (text, encoding) = decode(bytes.clone()).unwrap();
    let mut log = UndoLog::new(5);
    record_undo(&mut log, "7", "f.txt", &UndoEntry { original_text: text }, encoding);
    log.push(record("g.txt", "later"));
    let restores = plan_undo(&mut log, 9);
    assert_eq!(restores.len(), 2);
    assert_eq!(restores[0].file_path, "g.txt");
    assert_eq!(restores[0].bytes, b"later".to_vec());
    assert_eq!(restores[1].file_path, "f.txt");
    assert_eq!(restores[1].bytes, bytes);
    assert!(log.is_empty());
    assert!(plan_undo(&mut log, 1).is_empty());
}

#[test]
fn the_list_shows_the_newest_records() {
    let mut log = UndoLog::new(100);
    for i in 0..25 {
        log.push(record(&format!("f{i}"), "x"));
    }
    let list = undo_list(&log);
    assert_eq!(list.len(), 20);
    assert_eq!(list[0], "  1 f5 (2026-01-01T00:00:00Z)");
    assert_eq!(list[19], "  20 f24 (2026-01-01T00:00:00Z)");
}

#[test]
fn tags_that_are_not_known_stand_for_plain_text() {
    let mut r = record("a", "x");
    assert_eq!(undo_record_encoding(&r), SourceEncoding::Utf8);
    r.encoding = Some("latin-1".to_string());
    assert_eq!(undo_record_encoding(&r), SourceEncoding::Utf8);
    r.encoding = Some("utf-8-bom".to_string());
    assert_eq!(undo_record_encoding(&r), SourceEncoding::Utf8Bom);
}

#[test]
fn caps_keep_large_texts_out() {
    let mut log = UndoLog::new(5);
    let entry = UndoEntry { original_text: "12345".to_string() };
    assert!(!record_undo_capped(&mut log, "0", "f", &entry, SourceEncoding::Utf8, 4));
    assert!(log.is_empty());
    assert!(record_undo_capped(&mut log, "0", "f", &entry, SourceEncoding::Utf8, 5));
    assert!(record_undo_capped(&mut log, "0", "f", &entry, SourceEncoding::Utf8, 0));
    assert_eq!(log.len(), 2);
}
