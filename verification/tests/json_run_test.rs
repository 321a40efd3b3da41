//! The run of requests over files in memory.
use ripsed::error::ErrorCode;
use ripsed::globs::FileName;
use ripsed::json_run::{JsonEvent, JsonReport, JsonRun, JsonStep};
use ripsed::operation::{Op, OpOptions, PatternRange, ReplaceCount, TransformMode};
use ripsed::undo::UndoLog;
use std::collections::BTreeMap;

type Files = BTreeMap<String, Vec<u8>>;

fn replace(find: &str, with: &str) -> Op {
    Op::Replace {
        find: find.to_string(),
        replace: with.to_string(),
        regex: false,
        case_insensitive: false,
        multiline: false,
        count: Default::default(),
    }
}

fn files(list: &[(&str, &str)]) -> Files {
    list.iter().map(|(p, t)| (p.to_string(), t.as_bytes().to_vec())).collect()
}

struct Done {
    report: JsonReport,
    steps: Vec<String>,
}

/// Runs operations over all files; a step whose name `broken` gives fails.
fn run(
    ops: Vec<(Op, Option<String>)>,
    options: OpOptions,
    disk: &mut Files,
    jsonl: bool,
    broken: &str,
) -> Done {
    let names: Vec<FileName> = disk
        .keys()
        .map(|p| FileName {
            path: p.clone(),
            name: Some(p.rsplit('/').next().unwrap().to_string()),
        })
        .collect();
    let log = if options.dry_run { None } else { Some(UndoLog::new(100)) };
    let mut r = JsonRun::new(&ops, &options, &names, jsonl, log);
    let mut steps = Vec::new();
    loop {
        let action = r.action();
        let (name, event) = match action {
            JsonStep::Lock(i) => (format!("lock {}", names[i].path), JsonEvent::Done),
            JsonStep::Read(i) => (
                format!("read {}", names[i].path),
                JsonEvent::Bytes(disk[&names[i].path].clone()),
            ),
            JsonStep::Reuse(i) => (format!("reuse {}", names[i].path), JsonEvent::Done),
            JsonStep::Report => {
                let n = r.last_result().unwrap().operation_index;
                (format!("report {n}"), JsonEvent::Done)
            }
            JsonStep::Backup(i) => (format!("backup {}", names[i].path), JsonEvent::Done),
            JsonStep::Write(i, bytes) => {
                let name = format!("write {}", names[i].path);
                if name != broken {
                    disk.insert(names[i].path.clone(), bytes);
                }
                (name, JsonEvent::Done)
            }
            JsonStep::Commit => {
                if broken != "commit" {
                    for w in r.pending() {
                        disk.insert(names[w.file].path.clone(), w.bytes.clone());
                    }
                }
                ("commit".to_string(), JsonEvent::Done)
            }
            JsonStep::Finish => break,
        };
        let event = if name == broken { JsonEvent::Failed("boom".to_string()) } else { event };
        steps.push(name);
        r = r.answer(event, "99");
    }
    Done { report: r.into_report(), steps }
}

fn writing() -> OpOptions {
    OpOptions { dry_run: false, ..OpOptions::default() }
}

#[test]
fn operations_see_what_earlier_ones_left() {
    let mut disk = files(&[("a.txt", "one\n"), ("b.txt", "none\n")]);
    let ops = vec![(replace("one", "two"), None), (replace("two", "three"), None)];
    let d = run(ops, writing(), &mut disk, false, "");
    assert_eq!(disk, files(&[("a.txt", "three\n"), ("b.txt", "nthree\n")]));
    assert_eq!(
        d.steps,
        vec![
            "lock a.txt", "read a.txt", "write a.txt", "lock b.txt", "read b.txt", "write b.txt",
            "reuse a.txt", "write a.txt", "reuse b.txt", "write b.txt",
        ]
    );
    assert_eq!(d.report.summary.files_matched, 4);
    assert_eq!(d.report.summary.files_modified, 4);
    assert_eq!(d.report.summary.total_replacements, 4);
    assert_eq!(d.report.exit(), Ok(()));
    assert!(d.report.success());
    let log = d.report.log.unwrap();
    assert_eq!(log.len(), 4);
    assert_eq!(log.all()[2].entry.original_text, "two\n");
    assert_eq!(log.all()[0].timestamp, "99");
}

#[test]
fn a_dry_run_of_a_request_reads_only() {
    let before = files(&[("a.txt", "one\n")]);
    let mut disk = before.clone();
    let options = OpOptions { backup: true, atomic: true, ..OpOptions::default() };
    let d = run(vec![(replace("one", "two"), None)], options, &mut disk, false, "");
    assert_eq!(d.steps, vec!["read a.txt"]);
    assert_eq!(disk, before);
    assert_eq!(d.report.summary.files_matched, 1);
    assert_eq!(d.report.summary.files_modified, 0);
    assert_eq!(d.report.results[0].files[0].path, "a.txt");
    assert_eq!(d.report.results[0].files[0].changes[0].after.as_deref(), Some("two"));
    assert_eq!(d.report.exit(), Ok(()));
}

#[test]
fn an_atomic_run_writes_at_the_end() {
    let mut disk = files(&[("a.txt", "one\n"), ("b.txt", "one\n")]);
    let options = OpOptions { atomic: true, ..writing() };
    let ops = vec![(replace("one", "two"), None), (replace("two", "three"), None)];
    let d = run(ops, options, &mut disk, false, "");
    assert_eq!(d.steps.last().unwrap(), "commit");
    assert!(!d.steps.iter().any(|s| s.starts_with("write")));
    assert_eq!(disk, files(&[("a.txt", "three\n"), ("b.txt", "three\n")]));
    assert_eq!(d.report.summary.files_modified, 4);
}

#[test]
fn an_atomic_run_that_fails_is_not_recorded() {
    let before = files(&[("a.txt", "one\n")]);
    let mut disk = before.clone();
    let options = OpOptions { atomic: true, ..writing() };
    let d = run(vec![(replace("one", "two"), None)], options, &mut disk, false, "commit");
    assert_eq!(disk, before);
    assert!(d.report.log.is_none());
    assert_eq!(d.report.errors.len(), 1);
    assert_eq!(d.report.errors[0].code, ErrorCode::InternalError);
    assert_eq!(d.report.errors[0].message, "Atomic batch write failed: boom");
    assert_eq!(d.report.exit(), Err(2));
}

#[test]
fn operations_are_for_the_files_of_their_globs() {
    let mut disk = files(&[("src/a.rs", "x\n"), ("src/b.py", "x\n")]);
    let ops = vec![(replace("x", "y"), Some("*.rs".to_string()))];
    let d = run(ops, writing(), &mut disk, false, "");
    assert_eq!(d.steps, vec!["lock src/a.rs", "read src/a.rs", "write src/a.rs"]);
}

#[test]
fn a_pattern_that_does_not_compile_is_one_error() {
    let bad = Op::Delete {
        find: "(".to_string(),
        regex: true,
        case_insensitive: false,
        multiline: false,
    };
    let mut disk = files(&[("a.txt", "one\n"), ("b.txt", "one\n")]);
    let ops = vec![(replace("one", "two"), None), (bad, None)];
    let d = run(ops, OpOptions::default(), &mut disk, false, "");
    assert_eq!(d.report.errors.len(), 1);
    assert_eq!(d.report.errors[0].code, ErrorCode::InvalidRegex);
    assert_eq!(d.report.errors[0].operation_index, Some(1));
    assert_eq!(d.report.summary.files_matched, 2);
    assert_eq!(d.report.exit(), Err(2));
}

#[test]
fn nothing_matched_is_no_error() {
    let mut disk = files(&[("a.txt", "one\n")]);
    let d = run(vec![(replace("zzz", "y"), None)], writing(), &mut disk, false, "");
    assert!(d.report.success());
    assert_eq!(d.report.exit(), Err(1));
    let mut none = files(&[]);
    let d = run(vec![(replace("zzz", "y"), None)], writing(), &mut none, false, "");
    assert!(d.steps.is_empty());
    assert_eq!(d.report.exit(), Err(1));
}

#[test]
fn results_are_reported_as_they_come() {
    let mut disk = files(&[("a.txt", "one\n")]);
    let d = run(vec![(replace("one", "two"), None)], writing(), &mut disk, true, "");
    assert_eq!(d.steps, vec!["lock a.txt", "read a.txt", "report 0", "write a.txt"]);
}

#[test]
fn failures_name_the_file() {
    let mut disk = files(&[("a.txt", "one\n"), ("b.txt", "one\n")]);
    let options = OpOptions { backup: true, ..writing() };
    let one = || vec![(replace("one", "two"), None)];
    let d = run(one(), options.clone(), &mut disk, false, "lock a.txt");
    assert_eq!(d.report.errors[0].message, "Failed to write 'a.txt': lock failed: boom");
    assert_eq!(d.report.summary.files_modified, 1);
    let mut disk = files(&[("a.txt", "one\n")]);
    let d = run(one(), options.clone(), &mut disk, false, "backup a.txt");
    assert_eq!(d.report.errors[0].message, "Failed to write 'a.txt': backup failed: boom");
    assert_eq!(d.report.summary.files_modified, 0);
    let mut disk = files(&[("a.txt", "one\n")]);
    let d = run(one(), options.clone(), &mut disk, false, "read a.txt");
    assert_eq!(d.report.errors[0].code, ErrorCode::WriteFailed);
    assert_eq!(d.report.errors[0].message, "Failed to write 'a.txt': boom");
    let mut disk = files(&[("a.txt", "one\n")]);
    let d = run(one(), options, &mut disk, false, "write a.txt");
    assert_eq!(d.report.errors.len(), 1);
    assert_eq!(d.report.errors[0].message, "Failed to write 'a.txt': boom");
    assert_eq!(d.report.summary.files_modified, 0);
    assert_eq!(d.report.summary.files_matched, 1);
    assert_eq!(d.report.exit(), Err(2));
}

#[test]
fn a_file_that_may_not_be_read_is_named() {
    let ops = vec![(replace("one", "two"), None)];
    let options = OpOptions::default();
    let names = vec![FileName { path: "a.txt".to_string(), name: Some("a.txt".to_string()) }];
    let r = JsonRun::new(&ops, &options, &names, false, None);
    let r = r.answer(JsonEvent::Denied, "0");
    assert_eq!(r.action(), JsonStep::Finish);
    let report = r.into_report();
    assert_eq!(report.errors[0].code, ErrorCode::PermissionDenied);
    assert_eq!(report.errors[0].path.as_deref(), Some("a.txt"));
}

#[test]
fn bytes_that_are_no_text_are_named() {
    let mut disk = Files::new();
    disk.insert("a.txt".to_string(), vec![0xC3, 0x28]);
    let d = run(vec![(replace("one", "two"), None)], OpOptions::default(), &mut disk, false, "");
    assert!(d.report.errors[0].message.starts_with("Failed to write 'a.txt': invalid utf-8"));
}

#[test]
fn test_handle_json_undo_empty_log_does_not_panic() {
    let mut log = UndoLog::new(100);
    let popped = log.pop(1);
    assert!(popped.is_empty());
}

// ── One operation each ──

fn with(op: Op, disk: &mut Files) -> Done {
    run(vec![(op, None)], writing(), disk, false, "")
}

fn content(disk: &Files, path: &str) -> String {
    String::from_utf8(disk[path].clone()).unwrap()
}

#[test]
fn json_single_replace_response_schema() {
    let mut disk = files(&[("test.txt", "old_value here\n")]);
    let ops = vec![(replace("old_value", "new_value"), None)];
    let d = run(ops, OpOptions::default(), &mut disk, false, "");
    assert!(d.report.success());
    assert!(d.report.errors.is_empty());
    assert!(d.report.summary.files_matched >= 1);
    assert!(d.report.summary.total_replacements >= 1);
    assert!(!d.report.results.is_empty());
    assert_eq!(d.report.results[0].operation_index, 0);
    assert_eq!(d.report.results[0].files.len(), 1);
}

#[test]
fn json_batch_operations_with_operation_index() {
    let mut disk = files(&[("code.txt", "foo_val\nbar_val\nbaz_val\n")]);
    let ops = vec![(replace("foo_val", "FOO"), None), (replace("bar_val", "BAR"), None)];
    let d = run(ops, OpOptions::default(), &mut disk, false, "");
    assert!(d.report.success());
    assert!(!d.report.results.is_empty());
    for r in &d.report.results {
        assert!(r.operation_index <= 1);
    }
}

#[test]
fn json_dry_run_defaults_to_true() {
    let mut disk = files(&[("test.txt", "original text\n")]);
    let options = OpOptions::default();
    assert!(options.dry_run);
    run(vec![(replace("original", "modified"), None)], options, &mut disk, false, "");
    assert_eq!(content(&disk, "test.txt"), "original text\n");
}

#[test]
fn json_dry_run_false_modifies_files() {
    let mut disk = files(&[("test.txt", "original text\n")]);
    let d = with(replace("original", "modified"), &mut disk);
    assert_eq!(d.report.exit(), Ok(()));
    assert!(d.report.success());
    assert!(content(&disk, "test.txt").contains("modified text"));
    assert!(!content(&disk, "test.txt").contains("original"));
}

#[test]
fn json_replace_operation() {
    let mut disk = files(&[("data.txt", "alpha beta gamma\n")]);
    assert_eq!(with(replace("beta", "BETA"), &mut disk).report.exit(), Ok(()));
    assert_eq!(content(&disk, "data.txt"), "alpha BETA gamma\n");
}

#[test]
fn json_delete_operation() {
    let mut disk = files(&[("data.txt", "keep\nremove this\nkeep too\n")]);
    let op = Op::Delete {
        find: "remove".to_string(),
        regex: false,
        case_insensitive: false,
        multiline: false,
    };
    assert_eq!(with(op, &mut disk).report.exit(), Ok(()));
    let text = content(&disk, "data.txt");
    assert!(text.contains("keep"));
    assert!(text.contains("keep too"));
    assert!(!text.contains("remove"));
}

#[test]
fn json_insert_after_operation() {
    let mut disk = files(&[("data.txt", "line one\nmarker line\nline three\n")]);
    let op = Op::InsertAfter {
        find: "marker".to_string(),
        content: "INSERTED".to_string(),
        regex: false,
        case_insensitive: false,
    };
    assert_eq!(with(op, &mut disk).report.exit(), Ok(()));
    let text = content(&disk, "data.txt");
    let lines: Vec<&str> = text.lines().collect();
    let marker = lines.iter().position(|l| l.contains("marker")).unwrap();
    assert_eq!(lines[marker + 1], "INSERTED");
}

#[test]
fn json_insert_before_operation() {
    let mut disk = files(&[("data.txt", "line one\nmarker line\nline three\n")]);
    let op = Op::InsertBefore {
        find: "marker".to_string(),
        content: "INSERTED".to_string(),
        regex: false,
        case_insensitive: false,
    };
    assert_eq!(with(op, &mut disk).report.exit(), Ok(()));
    let text = content(&disk, "data.txt");
    let lines: Vec<&str> = text.lines().collect();
    let marker = lines.iter().position(|l| l.contains("marker")).unwrap();
    assert!(marker > 0);
    assert_eq!(lines[marker - 1], "INSERTED");
}

#[test]
fn json_replace_line_operation() {
    let mut disk = files(&[("data.txt", "keep\nold line content\nkeep too\n")]);
    let op = Op::ReplaceLine {
        find: "old line".to_string(),
        content: "brand new line".to_string(),
        regex: false,
        case_insensitive: false,
    };
    assert_eq!(with(op, &mut disk).report.exit(), Ok(()));
    let text = content(&disk, "data.txt");
    assert!(text.contains("brand new line"));
    assert!(!text.contains("old line content"));
    assert!(text.contains("keep"));
}

#[test]
fn json_response_has_change_details() {
    let mut disk = files(&[("test.txt", "aaa\nbbb\nccc\n")]);
    let d = run(vec![(replace("bbb", "BBB"), None)], OpOptions::default(), &mut disk, false, "");
    let change = &d.report.results[0].files[0].changes[0];
    assert_eq!(change.before, "bbb");
    assert_eq!(change.after.as_deref(), Some("BBB"));
    assert!(change.line > 0);
}

#[test]
fn json_regex_replace() {
    let mut disk = files(&[("code.txt", "fn old_handler() {\n}\n")]);
    let op = Op::Replace {
        find: r"fn old_(\w+)".to_string(),
        replace: "fn new_$1".to_string(),
        regex: true,
        case_insensitive: false,
        multiline: false,
        count: Default::default(),
    };
    assert_eq!(with(op, &mut disk).report.exit(), Ok(()));
    assert!(content(&disk, "code.txt").contains("fn new_handler"));
    assert!(!content(&disk, "code.txt").contains("fn old_handler"));
}

#[test]
fn json_per_operation_glob() {
    let mut disk = files(&[("code.rs", "target_string\n"), ("code.py", "target_string\n")]);
    let ops = vec![(replace("target_string", "replaced"), Some("*.rs".to_string()))];
    let d = run(ops, writing(), &mut disk, false, "");
    assert_eq!(d.report.exit(), Ok(()));
    assert_eq!(disk, files(&[("code.rs", "replaced\n"), ("code.py", "target_string\n")]));
}

#[test]
fn json_case_insensitive_replace() {
    let mut disk = files(&[("test.txt", "Hello World\nhello world\nHELLO WORLD\n")]);
    let op = Op::Replace {
        find: "hello".to_string(),
        replace: "greetings".to_string(),
        regex: false,
        case_insensitive: true,
        multiline: false,
        count: Default::default(),
    };
    assert_eq!(with(op, &mut disk).report.exit(), Ok(()));
    assert_eq!(content(&disk, "test.txt").matches("greetings").count(), 3);
}

#[test]
fn transform_upper_via_json_with_file() {
    let mut disk = files(&[("test.txt", "hello world\n")]);
    let op = Op::Transform {
        find: "hello".to_string(),
        mode: TransformMode::Upper,
        regex: false,
        case_insensitive: false,
    };
    assert_eq!(with(op, &mut disk).report.exit(), Ok(()));
    assert_eq!(content(&disk, "test.txt"), "HELLO world\n");
}

#[test]
fn surround_via_json_with_file() {
    let mut disk = files(&[("test.txt", "target line\nother line\n")]);
    let op = Op::Surround {
        find: "target".to_string(),
        prefix: ">>> ".to_string(),
        suffix: " <<<".to_string(),
        regex: false,
        case_insensitive: false,
    };
    assert_eq!(with(op, &mut disk).report.exit(), Ok(()));
    assert!(content(&disk, "test.txt").contains(">>> target line <<<"));
    assert!(content(&disk, "test.txt").contains("other line"));
}

#[test]
fn indent_via_json_with_file() {
    let mut disk = files(&[("test.txt", "fn main() {\n    code();\n}\n")]);
    let op = Op::Indent {
        find: "code".to_string(),
        amount: 4,
        use_tabs: false,
        regex: false,
        case_insensitive: false,
    };
    assert_eq!(with(op, &mut disk).report.exit(), Ok(()));
    assert!(content(&disk, "test.txt").contains("        code();"));
}

#[test]
fn dedent_via_json_with_file() {
    let mut disk = files(&[("test.txt", "    indented line\nnormal line\n")]);
    let op = Op::Dedent {
        find: "indented".to_string(),
        amount: 4,
        use_tabs: false,
        regex: false,
        case_insensitive: false,
    };
    assert_eq!(with(op, &mut disk).report.exit(), Ok(()));
    let text = content(&disk, "test.txt");
    assert!(text.contains("indented line"));
    assert!(!text.contains("    indented line"));
    assert!(text.contains("normal line"));
}

#[test]
fn multiline_json_op_replaces_across_lines() {
    let mut disk = files(&[("test.txt", "one\ntwo\nthree\n")]);
    let op = Op::Replace {
        find: "one\ntwo".to_string(),
        replace: "1\n2".to_string(),
        regex: false,
        case_insensitive: false,
        multiline: true,
        count: Default::default(),
    };
    assert_eq!(with(op, &mut disk).report.exit(), Ok(()));
    assert_eq!(content(&disk, "test.txt"), "1\n2\nthree\n");
}

#[test]
fn count_json_op_first_per_line() {
    let mut disk = files(&[("test.txt", "a a\na a\n")]);
    let op = Op::Replace {
        find: "a".to_string(),
        replace: "B".to_string(),
        regex: false,
        case_insensitive: false,
        multiline: false,
        count: ReplaceCount::FirstPerLine,
    };
    assert_eq!(with(op, &mut disk).report.exit(), Ok(()));
    assert_eq!(content(&disk, "test.txt"), "B a\nB a\n");
}

#[test]
fn pattern_range_works_in_json_mode() {
    let mut disk = files(&[("test.txt", "x\nBEGIN\nx\nEND\nx\n")]);
    let range = PatternRange { start_pattern: "BEGIN".to_string(), end_pattern: "END".to_string() };
    let options = OpOptions { range: Some(range), ..writing() };
    let d = run(vec![(replace("x", "y"), None)], options, &mut disk, false, "");
    assert_eq!(d.report.exit(), Ok(()));
    assert_eq!(content(&disk, "test.txt"), "x\nBEGIN\ny\nEND\nx\n");
}
