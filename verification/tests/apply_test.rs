//! Applying one operation to files in memory.
use ripsed::apply::{
    apply_to_file, apply_to_files, ApplyError, ApplyEvent, ApplyOptions, ApplyStep,
};
use ripsed::encoding::{encode, SourceEncoding};
use ripsed::engine::EngineOutput;
use ripsed::operation::{LineRange, Op};
use std::collections::BTreeMap;

fn make_replace_op(find: &str, replace: &str) -> Op {
    Op::Replace {
        count: Default::default(),
        multiline: false,
        find: find.to_string(),
        replace: replace.to_string(),
        regex: false,
        case_insensitive: false,
    }
}

type Files = BTreeMap<String, Vec<u8>>;

fn work(
    path: &str,
    op: &Op,
    options: &ApplyOptions,
    disk: &mut Files,
    steps: &mut Vec<ApplyStep>,
) -> Result<EngineOutput, ApplyError> {
    let mut job = apply_to_file(path, op, options);
    loop {
        let step = job.action();
        steps.push(step.clone());
        let event = match step {
            ApplyStep::Lock => ApplyEvent::Done,
            ApplyStep::Read => match disk.get(path) {
                Some(b) => ApplyEvent::Bytes(b.clone()),
                None => ApplyEvent::Failed("not found".to_string()),
            },
            ApplyStep::Backup => {
                disk.insert(format!("{path}.ripsed.bak"), disk[path].clone());
                ApplyEvent::Done
            }
            ApplyStep::Write(b) => {
                disk.insert(path.to_string(), b);
                ApplyEvent::Done
            }
            ApplyStep::Finish => break,
        };
        job = job.answer(event);
    }
    job.into_result().unwrap()
}

fn disk(list: &[(&str, &str)]) -> Files {
    list.iter().map(|(p, t)| (p.to_string(), t.as_bytes().to_vec())).collect()
}

#[test]
fn apply_to_file_dry_run_does_not_write() {
    let mut d = disk(&[("test.txt", "hello world\n")]);
    let mut steps = Vec::new();
    let op = make_replace_op("hello", "goodbye");
    let out = work("test.txt", &op, &ApplyOptions::default(), &mut d, &mut steps).unwrap();
    assert!(!out.changes.is_empty());
    assert_eq!(steps, vec![ApplyStep::Read, ApplyStep::Finish]);
    assert_eq!(d, disk(&[("test.txt", "hello world\n")]));
}

#[test]
fn apply_to_file_writes_when_not_dry_run() {
    let mut d = disk(&[("test.txt", "hello world\n")]);
    let op = make_replace_op("hello", "goodbye");
    let opts = ApplyOptions { dry_run: false, ..Default::default() };
    let out = work("test.txt", &op, &opts, &mut d, &mut Vec::new()).unwrap();
    assert!(!out.changes.is_empty());
    assert_eq!(d, disk(&[("test.txt", "goodbye world\n")]));
}

#[test]
fn apply_to_file_returns_undo_entry() {
    let mut d = disk(&[("test.txt", "hello world\n")]);
    let op = make_replace_op("hello", "goodbye");
    let opts = ApplyOptions { dry_run: false, ..Default::default() };
    let out = work("test.txt", &op, &opts, &mut d, &mut Vec::new()).unwrap();
    assert_eq!(out.undo.unwrap().original_text, "hello world\n");
}

#[test]
fn apply_to_file_creates_backup() {
    let mut d = disk(&[("test.txt", "hello\n")]);
    let op = make_replace_op("hello", "goodbye");
    let opts = ApplyOptions { dry_run: false, backup: true, ..Default::default() };
    work("test.txt", &op, &opts, &mut d, &mut Vec::new()).unwrap();
    assert_eq!(d, disk(&[("test.txt", "goodbye\n"), ("test.txt.ripsed.bak", "hello\n")]));
}

#[test]
fn apply_to_file_no_match_skips_write() {
    let mut d = disk(&[("test.txt", "hello world\n")]);
    let mut steps = Vec::new();
    let op = make_replace_op("nonexistent", "replaced");
    let opts = ApplyOptions { dry_run: false, ..Default::default() };
    let out = work("test.txt", &op, &opts, &mut d, &mut steps).unwrap();
    assert!(out.changes.is_empty());
    assert!(out.text.is_none());
    assert_eq!(steps, vec![ApplyStep::Lock, ApplyStep::Read, ApplyStep::Finish]);
}

#[test]
fn apply_to_file_nonexistent_file_returns_error() {
    let op = make_replace_op("a", "b");
    let opts = ApplyOptions::default();
    let err = work("nope.txt", &op, &opts, &mut disk(&[]), &mut Vec::new()).unwrap_err();
    assert!(matches!(err, ApplyError::Read(_, _)));
}

#[test]
fn line_ranges_apply() {
    let mut d = disk(&[("t", "x\nx\nx\n")]);
    let op = make_replace_op("x", "y");
    let opts = ApplyOptions {
        dry_run: false,
        line_range: Some(LineRange { start: 2, end: Some(2) }),
        ..Default::default()
    };
    work("t", &op, &opts, &mut d, &mut Vec::new()).unwrap();
    assert_eq!(d, disk(&[("t", "x\ny\nx\n")]));
}

#[test]
fn each_step_has_its_error() {
    let op = make_replace_op("x", "y");
    let opts = ApplyOptions { dry_run: false, backup: true, ..Default::default() };
    let boom = || ApplyEvent::Failed("boom".to_string());
    let job = apply_to_file("t", &op, &opts).answer(boom());
    assert_eq!(
        job.into_result().unwrap().unwrap_err(),
        ApplyError::Lock("t".to_string(), "boom".to_string())
    );
    let job = apply_to_file("t", &op, &opts).answer(ApplyEvent::Done);
    let job = job.answer(ApplyEvent::Bytes(b"x\n".to_vec())).answer(boom());
    assert_eq!(
        job.into_result().unwrap().unwrap_err(),
        ApplyError::Backup("t".to_string(), "boom".to_string())
    );
    let job = apply_to_file("t", &op, &opts).answer(ApplyEvent::Done);
    let job = job.answer(ApplyEvent::Bytes(b"x\n".to_vec())).answer(ApplyEvent::Done);
    assert_eq!(job.action(), ApplyStep::Write(b"y\n".to_vec()));
    let job = job.answer(boom());
    assert_eq!(
        job.into_result().unwrap().unwrap_err(),
        ApplyError::Write("t".to_string(), "boom".to_string())
    );
    let bad = Op::Delete {
        find: "(".to_string(),
        regex: true,
        case_insensitive: false,
        multiline: false,
    };
    let mut d = disk(&[("t", "x\n")]);
    let err = work("t", &bad, &ApplyOptions::default(), &mut d, &mut Vec::new()).unwrap_err();
    assert!(matches!(err, ApplyError::Engine(_)));
}

#[test]
fn errors_have_words() {
    let p = || "p".to_string();
    let e = || "e".to_string();
    assert_eq!(ApplyError::Lock(p(), e()).message(), "failed to lock p: e");
    assert_eq!(ApplyError::Read(p(), e()).message(), "failed to read p: e");
    assert_eq!(ApplyError::Backup(p(), e()).message(), "backup failed for p: e");
    assert_eq!(ApplyError::Write(p(), e()).message(), "write failed for p: e");
    assert_eq!(ApplyError::Discovery(e()).message(), "file discovery failed: e");
}

#[test]
fn apply_error_display_includes_path() {
    let err = ApplyError::Read("/tmp/test.txt".to_string(), "not found".to_string());
    let msg = err.message();
    assert!(msg.contains("test.txt"));
    assert!(msg.contains("not found"));
}

#[test]
fn apply_to_files_processes_multiple() {
    let op = make_replace_op("hello", "bye");
    let opts = ApplyOptions { dry_run: false, ..Default::default() };
    let mut d = disk(&[("a.txt", "hello\n"), ("b.txt", "hello\n"), ("c.txt", "nothing\n")]);
    let mut outs = Vec::new();
    for path in ["a.txt", "b.txt", "c.txt"] {
        outs.push((path.to_string(), work(path, &op, &opts, &mut d, &mut Vec::new())));
    }
    let results = apply_to_files(outs, false).unwrap();
    assert_eq!(results.len(), 2);
    assert_eq!(results[1].path, "b.txt");
    assert_eq!(results[1].undo.as_ref().unwrap().original_text, "hello\n");
    let outs = vec![
        ("a".to_string(), work("a.txt", &op, &opts, &mut d, &mut Vec::new())),
        ("b".to_string(), work("missing", &op, &opts, &mut d, &mut Vec::new())),
    ];
    assert!(matches!(apply_to_files(outs, false), Err(ApplyError::Read(_, _))));
}

#[test]
fn a_dry_run_has_nothing_to_take_back() {
    let op = make_replace_op("hello", "bye");
    let mut d = disk(&[("a.txt", "hello\n")]);
    let out = work("a.txt", &op, &ApplyOptions::default(), &mut d, &mut Vec::new());
    let results = apply_to_files(vec![("a.txt".to_string(), out)], true).unwrap();
    assert_eq!(results.len(), 1);
    assert_eq!(results[0].changes.len(), 1);
    assert!(results[0].undo.is_none());
}

#[test]
fn applying_keeps_the_encoding_of_a_file() {
    let op = make_replace_op("hello", "bye");
    for e in [
        SourceEncoding::Utf8,
        SourceEncoding::Utf8Bom,
        SourceEncoding::Utf16Le,
        SourceEncoding::Utf16Be,
    ] {
        for backup in [false, true] {
            let mut d: Files = [("t".to_string(), encode("hello\n", e))].into_iter().collect();
            let opts = ApplyOptions { dry_run: false, backup, ..Default::default() };
            let out = work("t", &op, &opts, &mut d, &mut Vec::new()).unwrap();
            assert_eq!(out.changes.len(), 1);
            assert_eq!(d["t"], encode("bye\n", e));
        }
    }
}
