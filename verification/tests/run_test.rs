//! Whole runs.
use ripsed::cli::Cli;
use ripsed::config::Config;
use ripsed::encoding::SourceEncoding;
use ripsed::operation::Op;
use ripsed::process::{FileOutcome, ProcessOptions};
use ripsed::run::{
    add_counts, exit_result, keeps_undo, process_options, record_in, script_options, RunTotals,
    ScriptRun, EXIT_ERROR, EXIT_NO_MATCHES,
};
use ripsed::script::ScriptOp;
use ripsed::undo::{UndoEntry, UndoLog};

fn outcome(path: &str, changes: usize, modified: bool) -> FileOutcome {
    FileOutcome {
        path: path.to_string(),
        changes: Vec::new(),
        total_line_changes: changes,
        undo: if modified {
            Some((UndoEntry { original_text: "before".to_string() }, SourceEncoding::Utf8))
        } else {
            None
        },
        modified,
        errors: Vec::new(),
        notes: Vec::new(),
    }
}

#[test]
fn errors_come_before_matches() {
    assert_eq!(exit_result(true, 5), Err(EXIT_ERROR));
    assert_eq!(exit_result(true, 0), Err(EXIT_ERROR));
    assert_eq!(exit_result(false, 0), Err(EXIT_NO_MATCHES));
    assert_eq!(exit_result(false, 1), Ok(()));
    assert_eq!((EXIT_NO_MATCHES, EXIT_ERROR), (1, 2));
}

#[test]
fn a_run_adds_up() {
    let run = RunTotals::new(Some(UndoLog::new(10)));
    let (run, note) = run.absorb(&outcome("a", 2, true), 0, "17");
    assert_eq!(note, None);
    let (run, _) = run.absorb(&outcome("b", 0, false), 0, "18");
    let (run, _) = run.absorb(&outcome("c", 3, false), 0, "19");
    assert_eq!(run.total_changes, 5);
    assert_eq!(run.files_modified, 1);
    assert!(!run.had_errors);
    assert_eq!(run.exit(), Ok(()));
    let log = run.log.unwrap();
    assert_eq!(log.len(), 1);
    assert_eq!(log.all()[0].file_path, "a");
    assert_eq!(log.all()[0].timestamp, "17");
    assert_eq!(log.all()[0].encoding, None);
}

#[test]
fn one_error_decides_the_run() {
    let run = RunTotals::new(None);
    let mut bad = outcome("bad", 0, false);
    bad.errors.push("ripsed: bad: boom".to_string());
    let (run, _) = run.absorb(&bad, 0, "0");
    let (run, _) = run.absorb(&outcome("good", 4, true), 0, "0");
    assert_eq!(run.exit(), Err(EXIT_ERROR));
    assert_eq!(run.total_changes, 4);
    assert!(run.log.is_none());
}

#[test]
fn texts_over_the_cap_are_not_recorded() {
    let run = RunTotals::new(Some(UndoLog::new(10)));
    let (run, note) = run.absorb(&outcome("big", 1, true), 5, "0");
    assert_eq!(
        note.as_deref(),
        Some("ripsed: undo skipped for big: 6 bytes exceeds undo.max_file_bytes (5); use --backup or raise the limit in .ripsed.toml")
    );
    assert!(run.log.unwrap().is_empty());
    let undo = Some((UndoEntry { original_text: "abc".to_string() }, SourceEncoding::Utf16Be));
    let (log, note) = record_in(Some(UndoLog::new(1)), "p", &undo, 3, "t");
    assert_eq!(note, None);
    assert_eq!(log.unwrap().all()[0].encoding.as_deref(), Some("utf-16be"));
}

#[test]
fn counts_do_not_overflow() {
    assert_eq!(add_counts(1, 2), 3);
    assert_eq!(add_counts(usize::MAX, 2), usize::MAX);
}

#[test]
fn a_script_backs_a_file_up_once() {
    let s = ScriptRun::new(None);
    assert!(!s.is_modified(7));
    let (s, _) = s.absorb(7, None, &outcome("a", 1, true), 0, "0");
    let (s, _) = s.absorb(8, None, &outcome("b", 1, false), 0, "0");
    assert!(s.is_modified(7));
    assert!(!s.is_modified(8));
    let (s, _) = s.absorb(7, None, &outcome("a", 1, true), 0, "0");
    assert_eq!(s.files_modified(), 1);
    let s = s.fail();
    let totals = s.into_totals();
    assert_eq!(totals.total_changes, 3);
    assert_eq!(totals.exit(), Err(EXIT_ERROR));
}

#[test]
fn the_glob_of_a_script_operation_comes_first() {
    let op = Op::Delete {
        find: "x".to_string(),
        regex: false,
        case_insensitive: false,
        multiline: false,
    };
    let cli = Cli { glob: Some("*.py".to_string()), ..Default::default() };
    let own = ScriptOp { op: op.clone(), glob: Some("*.rs".to_string()) };
    let none = ScriptOp { op, glob: None };
    let config = Config::default();
    assert_eq!(script_options(&cli, &config, &own).glob.as_deref(), Some("*.rs"));
    assert_eq!(script_options(&cli, &config, &none).glob.as_deref(), Some("*.py"));
}

#[test]
fn arguments_and_settings_make_the_options_of_a_run() {
    let config = Config::default();
    let cli = Cli::default();
    assert_eq!(
        process_options(&cli, &config, false),
        ProcessOptions {
            dry_run: false,
            skip_backup: false,
            context_lines: 3,
            undo_max_file_bytes: config.undo.max_file_bytes,
            stream_min_bytes: config.defaults.stream_min_bytes,
        }
    );
    let quiet = Cli { quiet: true, dry_run: true, ..Default::default() };
    let p = process_options(&quiet, &config, true);
    assert_eq!((p.context_lines, p.dry_run, p.skip_backup), (0, true, true));
    assert!(keeps_undo(&Cli::default()));
    assert!(!keeps_undo(&Cli { dry_run: true, ..Default::default() }));
    assert!(!keeps_undo(&Cli { no_undo: true, ..Default::default() }));
}

#[test]
fn a_script_leaves_its_backups_alone() {
    let s = ScriptRun::new(None);
    assert_eq!(s.plan(&vec![3, 4]), vec![(3, false), (4, false)]);
    let (s, _) = s.absorb(3, Some(5), &outcome("a", 1, true), 0, "0");
    let (s, _) = s.absorb(4, Some(6), &outcome("b", 1, false), 0, "0");
    assert_eq!(s.plan(&vec![3, 5, 4, 6, 7]), vec![(3, true), (4, false), (7, false)]);
    let s = s.fail();
    assert_eq!(s.plan(&vec![6, 5]), vec![]);
}
