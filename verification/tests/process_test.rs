//! Work on single files, with answers made up for it.
use ripsed::encoding::SourceEncoding;
use ripsed::matcher::Matcher;
use ripsed::operation::{Op, OpOptions};
use ripsed::process::{
    file_has_bom, stream_eligible, FileAction, FileEvent, FileJob, FileOutcome, ProcessOptions,
};

fn replace(find: &str, with: &str) -> Op {
    Op::Replace {
        find: find.to_string(),
        replace: with.to_string(),
        regex: false,
        case_insensitive: false,
        multiline: false,
        count: Default::default(),
    }
}

fn run_options() -> ProcessOptions {
    ProcessOptions {
        dry_run: false,
        skip_backup: false,
        context_lines: 3,
        undo_max_file_bytes: 0,
        stream_min_bytes: 0,
    }
}

fn writing() -> OpOptions {
    OpOptions { dry_run: false, ..OpOptions::default() }
}

/// What a job did, in order, and what it came to.
struct Trace {
    steps: Vec<FileAction>,
    outcome: FileOutcome,
    written: Vec<u8>,
}

/// Runs a job on a file in memory; the step that `broken` names fails.
fn work(
    op: &Op,
    options: &OpOptions,
    run: ProcessOptions,
    content: &[u8],
    broken: fn(&FileAction) -> bool,
) -> Trace {
    let matcher = Matcher::new(op).unwrap();
    let mut job = FileJob::new(op, &matcher, options, run, "f.txt");
    let text = String::from_utf8_lossy(content).into_owned();
    let mut lines = text.split_inclusive('\n').map(|l| l.to_string());
    let mut steps = Vec::new();
    let mut written = Vec::new();
    let mut streamed = Vec::new();
    loop {
        let action = job.action();
        steps.push(action.clone());
        if broken(&action) {
            job = job.answer(FileEvent::Failed("boom".to_string()));
            continue;
        }
        let event = match action {
            FileAction::Size => FileEvent::Size(content.len() as u64),
            FileAction::Prefix => FileEvent::Bytes(content[..content.len().min(3)].to_vec()),
            FileAction::Read => FileEvent::Bytes(content.to_vec()),
            FileAction::Write(bytes) => {
                written = bytes;
                FileEvent::Done
            }
            FileAction::ReadLine => match lines.next() {
                Some(l) => FileEvent::Line(l),
                None => FileEvent::EndOfInput,
            },
            FileAction::Emit(t) => {
                streamed.extend_from_slice(t.as_bytes());
                FileEvent::Done
            }
            FileAction::Persist => {
                written = streamed.clone();
                FileEvent::Done
            }
            FileAction::Finish => break,
            _ => FileEvent::Done,
        };
        job = job.answer(event);
    }
    Trace { steps, outcome: job.into_outcome(), written }
}

fn nothing(_: &FileAction) -> bool {
    false
}

#[test]
fn a_file_is_locked_read_and_written() {
    let t = work(&replace("old", "new"), &writing(), run_options(), b"an old hat\n", nothing);
    assert_eq!(
        t.steps,
        vec![
            FileAction::Lock,
            FileAction::Size,
            FileAction::Read,
            FileAction::Write(b"an new hat\n".to_vec()),
            FileAction::Finish,
        ]
    );
    assert!(t.outcome.modified);
    assert_eq!(t.outcome.total_line_changes, 1);
    let (entry, encoding) = t.outcome.undo.unwrap();
    assert_eq!(entry.original_text, "an old hat\n");
    assert_eq!(encoding, SourceEncoding::Utf8);
    assert!(t.outcome.errors.is_empty());
}

#[test]
fn a_dry_run_only_reads() {
    let run = ProcessOptions { dry_run: true, ..run_options() };
    let options = OpOptions { backup: true, ..writing() };
    let t = work(&replace("old", "new"), &options, run, b"old\n", nothing);
    assert_eq!(t.steps, vec![FileAction::Size, FileAction::Read, FileAction::Finish]);
    assert_eq!(t.outcome.total_line_changes, 1);
    assert!(!t.outcome.modified);
    assert_eq!(t.outcome.undo, None);
}

#[test]
fn a_file_without_a_match_is_left_alone() {
    let t = work(&replace("zzz", "new"), &writing(), run_options(), b"old\n", nothing);
    assert_eq!(t.steps.last(), Some(&FileAction::Finish));
    assert!(!t.steps.iter().any(|s| matches!(s, FileAction::Write(_))));
    assert_eq!(t.outcome.total_line_changes, 0);
}

#[test]
fn a_backup_comes_before_the_write() {
    let options = OpOptions { backup: true, ..writing() };
    let t = work(&replace("old", "new"), &options, run_options(), b"old\n", nothing);
    let backup = t.steps.iter().position(|s| *s == FileAction::Backup).unwrap();
    let write = t.steps.iter().position(|s| matches!(s, FileAction::Write(_))).unwrap();
    assert!(backup < write);
    let run = ProcessOptions { skip_backup: true, ..run_options() };
    let t = work(&replace("old", "new"), &options, run, b"old\n", nothing);
    assert!(!t.steps.contains(&FileAction::Backup));
    assert!(t.outcome.modified);
}

#[test]
fn a_backup_that_fails_keeps_the_file() {
    let options = OpOptions { backup: true, ..writing() };
    let t = work(&replace("old", "new"), &options, run_options(), b"old\n", |a| {
        *a == FileAction::Backup
    });
    assert_eq!(t.outcome.errors, vec!["ripsed: backup failed for f.txt: boom".to_string()]);
    assert!(!t.outcome.modified);
    assert_eq!(t.outcome.total_line_changes, 1);
}

#[test]
fn a_write_that_fails_leaves_nothing_to_undo() {
    let t = work(&replace("old", "new"), &writing(), run_options(), b"old\n", |a| {
        matches!(a, FileAction::Write(_))
    });
    assert_eq!(t.outcome.errors, vec!["ripsed: write failed for f.txt: boom".to_string()]);
    assert_eq!(t.outcome.undo, None);
    assert!(!t.outcome.modified);
}

#[test]
fn locks_and_reads_can_fail() {
    for broken in [
        (|a: &FileAction| *a == FileAction::Lock) as fn(&FileAction) -> bool,
        |a: &FileAction| *a == FileAction::Read,
    ] {
        let t = work(&replace("old", "new"), &writing(), run_options(), b"old\n", broken);
        assert_eq!(t.outcome.errors, vec!["ripsed: f.txt: boom".to_string()]);
        assert_eq!(t.outcome.total_line_changes, 0);
    }
}

#[test]
fn bytes_that_are_no_text_are_an_error() {
    let t = work(&replace("old", "new"), &writing(), run_options(), &[0xC3, 0x28], nothing);
    assert_eq!(t.outcome.errors.len(), 1);
    assert!(t.outcome.errors[0].starts_with("ripsed: f.txt: invalid utf-8"));
}

#[test]
fn a_file_keeps_its_encoding() {
    let content = [0xFF, 0xFE, b'o', 0, b'l', 0, b'd', 0];
    let t = work(&replace("old", "new"), &writing(), run_options(), &content, nothing);
    assert_eq!(t.written, vec![0xFF, 0xFE, b'n', 0, b'e', 0, b'w', 0]);
    assert_eq!(t.outcome.undo.unwrap().1, SourceEncoding::Utf16Le);
}

fn streaming() -> (OpOptions, ProcessOptions) {
    (
        OpOptions { record_undo: false, ..writing() },
        ProcessOptions { stream_min_bytes: 1, ..run_options() },
    )
}

#[test]
fn a_large_file_is_streamed() {
    let (options, run) = streaming();
    let t = work(&replace("old", "new"), &options, run, b"old\r\nkept\nold", nothing);
    assert_eq!(t.steps[2], FileAction::Prefix);
    assert_eq!(t.steps[3], FileAction::OpenStream { temporary: true });
    assert!(!t.steps.contains(&FileAction::Read));
    assert_eq!(t.written, b"new\r\nkept\nnew".to_vec());
    assert!(t.outcome.modified);
    assert_eq!(t.outcome.total_line_changes, 2);
    assert_eq!(t.outcome.changes[1].line, 3);
    assert_eq!(t.outcome.changes[1].before, "old");
    assert_eq!(t.outcome.changes[1].after.as_deref(), Some("new"));
    assert_eq!(t.outcome.undo, None);
    assert_eq!(
        t.outcome.notes,
        vec!["ripsed: undo skipped for f.txt: streamed large file (see undo.max_file_bytes)"
            .to_string()]
    );
}

#[test]
fn a_stream_without_a_match_is_not_put_in_place() {
    let (options, run) = streaming();
    let t = work(&replace("zzz", "new"), &options, run, b"old\nold\n", nothing);
    assert!(t.steps.contains(&FileAction::Flush));
    assert!(!t.steps.contains(&FileAction::Persist));
    assert!(t.outcome.notes.is_empty());
    assert!(!t.outcome.modified);
}

#[test]
fn a_streamed_dry_run_writes_nothing() {
    let (options, run) = streaming();
    let run = ProcessOptions { dry_run: true, ..run };
    let t = work(&replace("old", "new"), &options, run, b"old\n", nothing);
    assert_eq!(
        t.steps,
        vec![
            FileAction::Size,
            FileAction::Prefix,
            FileAction::OpenStream { temporary: false },
            FileAction::ReadLine,
            FileAction::ReadLine,
            FileAction::Finish,
        ]
    );
    assert_eq!(t.outcome.total_line_changes, 1);
}

#[test]
fn a_streamed_file_is_backed_up_before_it_is_replaced() {
    let (options, run) = streaming();
    let options = OpOptions { backup: true, ..options };
    let t = work(&replace("old", "new"), &options, run, b"old\n", nothing);
    let backup = t.steps.iter().position(|s| *s == FileAction::Backup).unwrap();
    let persist = t.steps.iter().position(|s| *s == FileAction::Persist).unwrap();
    assert!(backup < persist);
    let t = work(&replace("old", "new"), &options, run, b"old\n", |a| *a == FileAction::Backup);
    assert!(!t.steps.contains(&FileAction::Persist));
    assert_eq!(t.outcome.errors, vec!["ripsed: backup failed for f.txt: boom".to_string()]);
}

#[test]
fn a_stream_that_breaks_keeps_its_count() {
    let (options, run) = streaming();
    let t = work(&replace("old", "new"), &options, run, b"old\nold\n", |a| {
        matches!(a, FileAction::Emit(_))
    });
    assert_eq!(t.outcome.errors, vec!["ripsed: write failed for f.txt: boom".to_string()]);
    assert_eq!(t.outcome.total_line_changes, 1);
    assert!(!t.outcome.modified);
    let t = work(&replace("old", "new"), &options, run, b"old\n", |a| *a == FileAction::Flush);
    assert_eq!(t.outcome.errors, vec!["ripsed: write failed for f.txt: boom".to_string()]);
    let t = work(&replace("old", "new"), &options, run, b"old\n", |a| *a == FileAction::Persist);
    assert_eq!(t.outcome.errors, vec!["ripsed: write failed for f.txt: boom".to_string()]);
    assert!(!t.outcome.modified);
}

#[test]
fn a_file_with_a_byte_order_mark_is_not_streamed() {
    let (options, run) = streaming();
    let t = work(&replace("old", "new"), &options, run, b"\xEF\xBB\xBFold\n", nothing);
    assert!(t.steps.contains(&FileAction::Read));
    assert_eq!(t.written, b"\xEF\xBB\xBFnew\n".to_vec());
}

#[test]
fn streams_show_their_first_changes_only() {
    let (options, run) = streaming();
    let content = "old\n".repeat(120);
    let t = work(&replace("old", "new"), &options, run, content.as_bytes(), nothing);
    assert_eq!(t.outcome.total_line_changes, 120);
    assert_eq!(t.outcome.changes.len(), 50);
    assert_eq!(t.outcome.changes[49].line, 50);
}

#[test]
fn streaming_needs_size_and_no_undo() {
    let op = replace("a", "b");
    let kept = OpOptions::default();
    let off = OpOptions { record_undo: false, ..OpOptions::default() };
    assert!(!stream_eligible(100, &op, &kept, 0, 50));
    assert!(!stream_eligible(100, &op, &kept, 100, 50));
    assert!(stream_eligible(101, &op, &kept, 100, 50));
    assert!(stream_eligible(50, &op, &off, 0, 50));
    assert!(!stream_eligible(49, &op, &off, 0, 50));
    assert!(!stream_eligible(1000, &op, &off, 0, 0));
    let multi = Op::Delete {
        find: "a".to_string(),
        regex: false,
        case_insensitive: false,
        multiline: true,
    };
    assert!(!stream_eligible(100, &multi, &off, 0, 50));
}

#[test]
fn byte_order_marks_are_told_from_text() {
    assert!(file_has_bom(&[0xEF, 0xBB, 0xBF]));
    assert!(file_has_bom(&[0xFF, 0xFE]));
    assert!(file_has_bom(&[0xFE, 0xFF, 0x00]));
    assert!(!file_has_bom(b"abc"));
    assert!(!file_has_bom(&[]));
}

#[test]
fn an_answer_that_does_not_fit_changes_nothing() {
    let op = replace("a", "b");
    let matcher = Matcher::new(&op).unwrap();
    let options = writing();
    let job = FileJob::new(&op, &matcher, &options, run_options(), "f.txt");
    let job = job.answer(FileEvent::EndOfInput);
    assert_eq!(job.action(), FileAction::Lock);
    assert_eq!(job.lines_streamed(), 0);
}

#[test]
fn a_streamed_dry_run_says_that_undo_is_skipped() {
    let (options, run) = streaming();
    let run = ProcessOptions { dry_run: true, ..run };
    let t = work(&replace("old", "new"), &options, run, b"old\n", nothing);
    assert_eq!(t.outcome.notes.len(), 1);
    let t = work(&replace("zzz", "new"), &options, run, b"old\n", nothing);
    assert!(t.outcome.notes.is_empty());
}

#[test]
fn a_file_whose_start_cannot_be_read_is_not_streamed() {
    let (options, run) = streaming();
    let t = work(&replace("old", "new"), &options, run, b"old\n", |a| *a == FileAction::Prefix);
    assert!(t.steps.contains(&FileAction::Read));
    assert_eq!(t.written, b"new\n".to_vec());
}
