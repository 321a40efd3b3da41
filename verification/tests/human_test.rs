//! What a user is shown, and runs that ask.
use ripsed::bench::{
    bench_sizes, big_file, build_big_commands, build_timer_args, build_tree_commands, tree_file,
    Tools, BIG_PAIR_BYTES,
};
use ripsed::confirm::{
    confirm_options, read_action, ConfirmAction, ConfirmEvent, ConfirmOptions, ConfirmRun, ConfirmStep,
};
use ripsed::diff::{Change, ChangeContext};
use ripsed::cli::Cli;
use ripsed::config::Config;
use ripsed::human::{
    closing, confirm_lines, file_diff, shows_diffs, summary, Closing, DiffLine, PromptLine,
};
use ripsed::matcher::Matcher;
use ripsed::operation::{Op, OpOptions};
use ripsed::run::RunTotals;
use ripsed::undo::UndoLog;

fn change(line: usize) -> Change {
    Change {
        line,
        before: format!("before {line}"),
        after: Some(format!("after {line}")),
        context: None,
    }
}

#[test]
fn a_diff_shows_lines_with_their_context() {
    let c = Change {
        line: 2,
        before: "old".to_string(),
        after: Some("new\nnewer".to_string()),
        context: Some(ChangeContext {
            before: vec!["above".to_string()],
            after: vec!["below".to_string()],
        }),
    };
    let text = |s: &str| s.to_string();
    assert_eq!(
        file_diff("f.txt", &[c], 1),
        vec![
            DiffLine::Header(text("f.txt")),
            DiffLine::Context(text("above")),
            DiffLine::Removed(text("old")),
            DiffLine::Added(text("new")),
            DiffLine::Added(text("newer")),
            DiffLine::Context(text("below")),
            DiffLine::Blank,
        ]
    );
}

#[test]
fn a_deletion_shows_no_new_line() {
    let c = Change { after: None, ..change(1) };
    assert_eq!(
        file_diff("f", &[c], 1),
        vec![
            DiffLine::Header("f".to_string()),
            DiffLine::Removed("before 1".to_string()),
            DiffLine::Blank,
        ]
    );
}

#[test]
fn long_diffs_are_cut() {
    let changes: Vec<Change> = (1..=60).map(change).collect();
    let d = file_diff("f", &changes, 60);
    assert_eq!(d.len(), 1 + 50 * 3 + 1);
    assert_eq!(d.last(), Some(&DiffLine::More(10)));
    let d = file_diff("f", &changes[..50], 1000);
    assert_eq!(d.last(), Some(&DiffLine::More(950)));
    let d = file_diff("f", &changes[..50], 50);
    assert_eq!(d.last(), Some(&DiffLine::Blank));
}

#[test]
fn runs_end_with_a_summary() {
    assert_eq!(summary(2, 5, false), "ripsed: 5 change(s) applied in 2 file(s)");
    assert_eq!(summary(0, 5, true), "ripsed: dry run — 5 change(s) in 0 file(s) (not applied)");
}

fn replace() -> Op {
    Op::Replace {
        find: "old".to_string(),
        replace: "new".to_string(),
        regex: false,
        case_insensitive: false,
        multiline: false,
        count: Default::default(),
    }
}

fn settings() -> ConfirmOptions {
    ConfirmOptions { dry_run: false, show: true, context_lines: 3, undo_max_file_bytes: 0 }
}

/// Asks about files, all of which hold the same; `replies` are the answers.
fn ask(
    options: &OpOptions,
    settings: ConfirmOptions,
    files: &[&str],
    content: &[u8],
    replies: &[ConfirmAction],
    broken: fn(&ConfirmStep) -> bool,
) -> (Vec<String>, Vec<String>, RunTotals, bool) {
    let op = replace();
    let matcher = Matcher::new(&op).unwrap();
    let totals = RunTotals::new(Some(UndoLog::new(10)));
    let mut run = ConfirmRun::new(&op, &matcher, options, settings, totals);
    let mut replies = replies.iter();
    let mut steps = Vec::new();
    let mut quit = false;
    'files: for path in files {
        run = run.open(path);
        loop {
            let step = run.action();
            let event = match &step {
                ConfirmStep::Next => break,
                ConfirmStep::Quit => {
                    quit = true;
                    break 'files;
                }
                ConfirmStep::Read => ConfirmEvent::Bytes(content.to_vec()),
                ConfirmStep::Ask => {
                    assert_eq!(run.changes().unwrap().len(), 1);
                    ConfirmEvent::Reply(*replies.next().unwrap())
                }
                ConfirmStep::Show => {
                    assert_eq!(run.changes().unwrap()[0].before, "old");
                    ConfirmEvent::Done
                }
                ConfirmStep::Lock | ConfirmStep::Backup | ConfirmStep::Write(_) => {
                    ConfirmEvent::Done
                }
            };
            steps.push(match &step {
                ConfirmStep::Write(b) => format!("write {}", String::from_utf8_lossy(b).trim()),
                other => format!("{other:?}").to_lowercase(),
            });
            let event =
                if broken(&step) { ConfirmEvent::Failed("boom".to_string()) } else { event };
            run = run.answer(event, "5");
        }
    }
    let messages = run.messages().to_vec();
    (steps, messages, run.into_totals(), quit)
}

fn nothing(_: &ConfirmStep) -> bool {
    false
}

#[test]
fn a_yes_changes_the_file() {
    let (steps, messages, totals, _) =
        ask(&OpOptions::default(), settings(), &["a"], b"old\n", &[ConfirmAction::Yes], nothing);
    assert_eq!(steps, vec!["lock", "read", "ask", "show", "write new"]);
    assert!(messages.is_empty());
    assert_eq!((totals.total_changes, totals.files_modified), (1, 1));
    assert_eq!(totals.log.unwrap().len(), 1);
}

#[test]
fn a_no_leaves_the_file() {
    for reply in [ConfirmAction::No, ConfirmAction::SkipFile] {
        let (steps, _, totals, _) =
            ask(&OpOptions::default(), settings(), &["a"], b"old\n", &[reply], nothing);
        assert_eq!(steps, vec!["lock", "read", "ask"]);
        assert_eq!((totals.total_changes, totals.files_modified), (0, 0));
        assert!(totals.log.unwrap().is_empty());
    }
}

#[test]
fn all_asks_no_more() {
    let (steps, _, totals, _) = ask(
        &OpOptions::default(),
        ConfirmOptions { show: false, ..settings() },
        &["a", "b", "c"],
        b"old\n",
        &[ConfirmAction::No, ConfirmAction::ApplyAll],
        nothing,
    );
    assert_eq!(
        steps,
        vec!["lock", "read", "ask", "lock", "read", "ask", "write new", "lock", "read", "write new"]
    );
    assert_eq!(totals.files_modified, 2);
}

#[test]
fn quitting_ends_the_run() {
    let (steps, _, totals, quit) = ask(
        &OpOptions::default(),
        settings(),
        &["a", "b"],
        b"old\n",
        &[ConfirmAction::Quit],
        nothing,
    );
    assert_eq!(steps, vec!["lock", "read", "ask"]);
    assert!(quit);
    assert_eq!(totals.files_modified, 0);
}

#[test]
fn a_dry_run_asks_and_writes_nothing() {
    let options = OpOptions { backup: true, ..OpOptions::default() };
    let dry = ConfirmOptions { dry_run: true, ..settings() };
    let (steps, _, totals, _) =
        ask(&options, dry, &["a"], b"old\n", &[ConfirmAction::Yes], nothing);
    assert_eq!(steps, vec!["read", "ask", "show"]);
    assert_eq!((totals.total_changes, totals.files_modified), (1, 0));
}

#[test]
fn trouble_with_one_file_does_not_stop_the_others() {
    let options = OpOptions { backup: true, ..OpOptions::default() };
    let yes = [ConfirmAction::Yes, ConfirmAction::Yes];
    let (_, messages, totals, _) = ask(&options, settings(), &["a", "b"], b"old\n", &yes, |s| {
        *s == ConfirmStep::Backup
    });
    assert_eq!(
        messages,
        vec![
            "ripsed: backup failed for a: boom".to_string(),
            "ripsed: backup failed for b: boom".to_string()
        ]
    );
    assert!(totals.had_errors);
    let (_, messages, totals, _) = ask(&options, settings(), &["a"], b"old\n", &yes, |s| {
        matches!(s, ConfirmStep::Write(_))
    });
    assert_eq!(messages, vec!["ripsed: write failed for a: boom".to_string()]);
    assert_eq!(totals.files_modified, 0);
    assert_eq!(totals.log.unwrap().len(), 1);
    let (_, messages, _, _) =
        ask(&options, settings(), &["a"], b"old\n", &[], |s| *s == ConfirmStep::Lock);
    assert_eq!(messages, vec!["ripsed: a: boom".to_string()]);
    let (_, messages, _, _) =
        ask(&options, settings(), &["a"], b"old\n", &[], |s| *s == ConfirmStep::Read);
    assert_eq!(messages, vec!["ripsed: a: boom".to_string()]);
    let (_, messages, _, _) =
        ask(&options, settings(), &["a"], &[0xC3, 0x28], &[], nothing);
    assert!(messages[0].starts_with("ripsed: a: invalid utf-8"));
}

#[test]
fn a_text_over_the_cap_is_said_to_be() {
    let capped = ConfirmOptions { undo_max_file_bytes: 2, ..settings() };
    let (_, messages, totals, _) = ask(
        &OpOptions::default(),
        capped,
        &["a"],
        b"old\n",
        &[ConfirmAction::Yes],
        nothing,
    );
    assert!(messages[0].starts_with("ripsed: undo skipped for a: 4 bytes"));
    assert!(totals.log.unwrap().is_empty());
    assert_eq!(totals.files_modified, 1);
}

#[test]
fn words_are_answers() {
    assert_eq!(read_action("y"), ConfirmAction::Yes);
    assert_eq!(read_action("all"), ConfirmAction::ApplyAll);
    assert_eq!(read_action("skip"), ConfirmAction::SkipFile);
    assert_eq!(read_action("q"), ConfirmAction::Quit);
    assert_eq!(read_action("Y"), ConfirmAction::No);
}

#[test]
fn comparisons_have_a_size() {
    assert_eq!(bench_sizes(true).files, 200);
    assert_eq!(bench_sizes(false).big_mb, 64);
    let t = tree_file(12, true);
    assert_eq!(t.lines().count(), 12);
    assert_eq!(t.matches("needle").count(), 2);
    assert_eq!(tree_file(12, false).matches("needle").count(), 0);
    let b = big_file(1);
    assert_eq!(b.len(), 1024 * 1024 / BIG_PAIR_BYTES * BIG_PAIR_BYTES);
    assert!(b.starts_with("a needle line that will be edited\nplain filler content on this line\n"));
}

#[test]
fn comparisons_run_the_tools_there_are() {
    let tools = Tools { sed: true, sd: false, perl: true };
    let c = build_tree_commands("/w", "/bin/ripsed", "needle", tools);
    assert_eq!(c.len(), 3);
    assert_eq!(c[0].command, "cd /w && /bin/ripsed 'needle' thread");
    assert_eq!(
        c[1].command,
        "find /w -name '*.txt' -print0 | xargs -0 sed -i 's/needle/thread/g'"
    );
    assert_eq!(
        c[2].command,
        "find /w -name '*.txt' -print0 | xargs -0 perl -pi -e 's/needle/thread/g'"
    );
    let c = build_big_commands("/w", "r", Tools { sed: false, sd: true, perl: false });
    assert_eq!(c[0].command, "cd /w && r needle thread");
    assert_eq!((c[1].tool.as_str(), c[1].command.as_str()), ("sd", "sd needle thread /w/big.txt"));
    let args = build_timer_args(3, "/w", "/p", "/o.json", &c);
    assert_eq!(args[..5].join(" "), "--ignore-failure --warmup 1 --min-runs 3");
    assert_eq!(args[6], "rm -rf /w && cp -r /p /w");
    assert_eq!(args[8..11].join(" "), "/o.json --command-name ripsed");
    assert_eq!(args.len(), 9 + 3 * 2);
}

#[test]
fn a_question_shows_every_change() {
    let gone = Change { after: None, ..change(7) };
    assert_eq!(
        confirm_lines("f", &[change(2), gone]),
        vec![
            PromptLine::Heading { path: "f".to_string(), count: "2 changes".to_string() },
            PromptLine::Line(2),
            PromptLine::Removed("before 2".to_string()),
            PromptLine::Added("after 2".to_string()),
            PromptLine::Line(7),
            PromptLine::Removed("before 7".to_string()),
        ]
    );
    assert_eq!(
        confirm_lines("f", &[change(1)])[0],
        PromptLine::Heading { path: "f".to_string(), count: "1 change".to_string() }
    );
}

#[test]
fn a_run_ends_with_a_count_or_a_summary_or_silence() {
    let plain = Cli::default();
    assert!(shows_diffs(&plain));
    assert_eq!(
        closing(&plain, 1, 2),
        Closing::Summary("ripsed: 2 change(s) applied in 1 file(s)".to_string())
    );
    let quiet = Cli { quiet: true, ..Cli::default() };
    assert!(!shows_diffs(&quiet));
    assert_eq!(closing(&quiet, 1, 2), Closing::Silent);
    let count = Cli { count: true, quiet: true, ..Cli::default() };
    assert!(!shows_diffs(&count));
    assert_eq!(closing(&count, 1, 2), Closing::Count(2));
}

#[test]
fn a_run_that_asks_follows_the_arguments() {
    let mut config = Config::default();
    config.undo.max_file_bytes = 9;
    assert_eq!(
        confirm_options(&Cli { dry_run: true, ..Cli::default() }, &config),
        ConfirmOptions { dry_run: true, show: true, context_lines: 3, undo_max_file_bytes: 9 }
    );
    assert_eq!(
        confirm_options(&Cli { quiet: true, ..Cli::default() }, &config),
        ConfirmOptions { dry_run: false, show: false, context_lines: 0, undo_max_file_bytes: 9 }
    );
}
