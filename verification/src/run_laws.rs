//! Laws of runs: what a run adds up, what it keeps for undo, what it prints
//! and how it ends.
use vstd::prelude::*;
use vstd::utf8::*;

use crate::cli;
use crate::cli::Cli;
use crate::config::Config;
use crate::confirm::ConfirmOptions;
use crate::diff::ChangeView;
use crate::encoding;
use crate::encoding::SourceEncoding;
use crate::engine;
use crate::files;
use crate::files::DiscoveryOptions;
use crate::human;
use crate::human::Closing;
use crate::human::DiffView;
use crate::human::PromptView;
use crate::lines;
use crate::matcher;
use crate::operation::OpOptions;
use crate::operation::RangeView;
use crate::pipe;
use crate::pipe::PipeEventView;
use crate::pipe::PipeStageView;
use crate::pipe::PipeView;
use crate::process::OutcomeView;
use crate::process::ProcessOptions;
use crate::rex;
use crate::run;
use crate::run::RunTotals;
use crate::run::RunView;
use crate::stream;
use crate::strings;
use crate::undo;
use crate::undo::LogView;
use crate::undo::RecordView;
use crate::undo::Restore;
use crate::undo::UndoLog;

verus! {

// ---------------------------------------------------------------------------
// Totals and exits
// ---------------------------------------------------------------------------

/// A run exits with 2 after any error, else with 1 where nothing was changed,
/// else in peace.
pub proof fn law_exit_codes(had_errors: bool, total: int)
    ensures
        had_errors ==> run::exit_of(had_errors, total) == Err::<(), i32>(2),
        !had_errors && total == 0 ==> run::exit_of(had_errors, total) == Err::<(), i32>(1),
        !had_errors && total != 0 ==> run::exit_of(had_errors, total) == Ok::<(), i32>(()),
{
}

/// What a file adds to a run: its changes, itself where it was modified, and
/// its errors; nothing that was counted before is lost.
pub proof fn law_run_adds_up(before: RunView, o: OutcomeView, cap: u64, now: Seq<char>)
    requires
        0 <= before.total_changes,
        0 <= before.files_modified,
        0 <= o.total,
        before.total_changes + o.total <= usize::MAX,
        before.files_modified < usize::MAX,
    ensures
        ({
            let after = run::run_after(before, o, cap, now);
            &&& after.total_changes == before.total_changes + o.total
            &&& after.files_modified == before.files_modified + if o.total > 0 && o.modified {
                1int
            } else {
                0int
            }
            &&& after.had_errors <==> (before.had_errors || o.errors.len() > 0)
        }),
{
}

/// Counts stop at the largest number that can be held, and never go down.
pub proof fn law_counts_never_go_down(a: int, b: int)
    requires
        0 <= a <= usize::MAX,
        0 <= b <= usize::MAX,
    ensures
        a <= run::capped_sum(a, b) <= usize::MAX,
        b <= run::capped_sum(a, b),
        a + b <= usize::MAX ==> run::capped_sum(a, b) == a + b,
        a + b > usize::MAX ==> run::capped_sum(a, b) == usize::MAX,
{
}

/// A new run has counted nothing, met no error and holds the log it was given.
pub proof fn law_run_starts_from_nothing(log: Option<UndoLog>, r: RunTotals)
    requires
        call_ensures(RunTotals::new, (log,), r),
    ensures
        r.total_changes == 0,
        r.files_modified == 0,
        !r.had_errors,
        r.log is Some <==> log is Some,
        log is Some ==> r.log->0@ == log->0@,
{
}

// ---------------------------------------------------------------------------
// Undo
// ---------------------------------------------------------------------------

/// What a run keeps of a changed file: its path, its text as it was and the
/// encoding to write it in, as the newest record of the log.
pub proof fn law_changed_file_is_kept(
    before: RunView,
    log: LogView,
    o: OutcomeView,
    cap: u64,
    now: Seq<char>,
    text: Seq<char>,
    e: SourceEncoding,
)
    requires
        before.log == Some(log),
        0 < log.max_entries,
        o.total > 0,
        o.undo == Some((text, e)),
        cap == 0 || encode_utf8(text).len() <= cap,
    ensures
        ({
            let after = run::run_after(before, o, cap, now).log;
            &&& after is Some
            &&& after->0.max_entries == log.max_entries
            &&& after->0.records.len() > 0
            &&& after->0.records.last().file_path == o.path
            &&& after->0.records.last().original_text == text
            &&& after->0.records.last().timestamp == now
            &&& undo::encoding_of_record(after->0.records.last().encoding) == e
        }),
{
    encoding::law_tag_round_trip(e);
    let record = undo::undo_record(now, o.path, text, e);
    let all = log.records.push(record);
    assert(undo::newest(all, log.max_entries).last() == record);
}

/// A file with no changes, one without a text to keep, and one whose text is
/// larger than the limit leave the log as it is.
pub proof fn law_log_is_left_alone(
    before: RunView,
    o: OutcomeView,
    cap: u64,
    now: Seq<char>,
)
    requires
        o.total == 0 || o.undo is None || (cap > 0 && encode_utf8((o.undo->0).0).len() > cap),
    ensures
        run::run_after(before, o, cap, now).log == before.log,
{
}

/// A run without a log gets none.
pub proof fn law_no_log_is_made(before: RunView, o: OutcomeView, cap: u64, now: Seq<char>)
    requires
        before.log is None,
    ensures
        run::run_after(before, o, cap, now).log is None,
{
}

/// The user is told of a text that is not kept, and of no other.
pub proof fn law_only_skipped_undo_is_told(
    log: Option<LogView>,
    path: Seq<char>,
    undo: Option<(Seq<char>, SourceEncoding)>,
    cap: u64,
)
    ensures
        run::note_after(log, path, undo, cap) is Some <==> (log is Some && undo is Some && cap > 0
            && encode_utf8((undo->0).0).len() > cap),
{
}

/// A log keeps the newest records and drops the oldest.
pub proof fn law_log_keeps_the_newest(log: LogView, record: RecordView, i: int)
    requires
        0 <= log.max_entries,
        0 <= i < undo::logged(log, record).records.len(),
    ensures
        ({
            let after = undo::logged(log, record).records;
            let all = log.records.push(record);
            &&& after[i] == all[all.len() - after.len() + i]
            &&& after.len() == all.len() || after.len() == log.max_entries
            &&& after.len() <= log.max_entries || log.records.len() < log.max_entries
            &&& undo::logged(log, record).max_entries == log.max_entries
        }),
{
}

/// Undo takes the newest records first, as many as are asked for or there are.
pub proof fn law_undo_takes_the_newest(log: &mut UndoLog, count: usize, r: Vec<Restore>, k: int)
    requires
        call_ensures(undo::plan_undo, (log, count), r),
        0 <= k < r@.len(),
    ensures
        r@.len() <= count,
        r@.len() <= old(log)@.records.len(),
        r@[k].file_path@ == old(log)@.records[old(log)@.records.len() - 1 - k].file_path,
{
}

/// The list of what can be undone shows the newest twenty records, numbered
/// from 1, each with its file and its time.
pub proof fn law_undo_list_shows_the_newest(log: UndoLog, r: Vec<String>, k: int)
    requires
        call_ensures(undo::undo_list, (&log,), r),
        0 <= k < r@.len(),
    ensures
        log@.records.len() <= 20 ==> r@.len() == log@.records.len(),
        log@.records.len() > 20 ==> r@.len() == 20,
        ({
            let record = log@.records[log@.records.len() - r@.len() + k];
            r@[k]@ == "  "@ + strings::decimal((k + 1) as nat) + " "@ + record.file_path + " ("@
                + record.timestamp + ")"@
        }),
{
}

// ---------------------------------------------------------------------------
// Settings
// ---------------------------------------------------------------------------

/// A dry run stays one, and the limits of the configuration are carried on.
pub proof fn law_process_settings(cli: Cli, config: Config, skip_backup: bool, p: ProcessOptions)
    requires
        call_ensures(run::process_options, (&cli, &config, skip_backup), p),
    ensures
        p.dry_run <==> cli.dry_run,
        p.skip_backup <==> skip_backup,
        p.undo_max_file_bytes == config.undo.max_file_bytes,
        p.stream_min_bytes == config.defaults.stream_min_bytes,
        p.context_lines == 0 <==> (cli.quiet || cli.count),
        p.context_lines == 0 || p.context_lines == 3,
{
}

/// The same holds of a run that asks before it writes; it shows its changes
/// unless it counts or is quiet.
pub proof fn law_confirm_settings(cli: Cli, config: Config, o: ConfirmOptions)
    requires
        call_ensures(crate::confirm::confirm_options, (&cli, &config), o),
    ensures
        o.dry_run <==> cli.dry_run,
        o.show <==> !(cli.count || cli.quiet),
        o.undo_max_file_bytes == config.undo.max_file_bytes,
        o.show <==> o.context_lines == 3,
        !o.show <==> o.context_lines == 0,
{
}

/// Files are looked for below the root that is asked for, else below the
/// current directory, with the patterns and limits that are asked for; links
/// are not followed.
pub proof fn law_discovery_settings(opts: OpOptions, cwd: &str, d: DiscoveryOptions)
    requires
        call_ensures(files::discovery_opts_from, (&opts, cwd), d),
    ensures
        opts@.root matches Some(root) ==> d.root@ == root,
        opts@.root is None ==> d.root@ == cwd@,
        d.glob is Some <==> opts@.glob is Some,
        opts@.glob matches Some(g) ==> d.glob->0@ == g,
        d.ignore_pattern is Some <==> opts@.ignore is Some,
        opts@.ignore matches Some(g) ==> d.ignore_pattern->0@ == g,
        d.gitignore <==> opts@.gitignore,
        d.hidden <==> opts@.hidden,
        d.max_depth == opts@.max_depth,
        !d.follow_links,
{
}

// ---------------------------------------------------------------------------
// What is printed
// ---------------------------------------------------------------------------

/// A run ends with its number of changes where it counts, with nothing where
/// it is quiet, and else with a summary.
pub proof fn law_closing(cli: Cli, files: usize, total: usize, c: Closing)
    requires
        call_ensures(human::closing, (&cli, files, total), c),
    ensures
        cli.count ==> c == Closing::Count(total),
        !cli.count && cli.quiet ==> c is Silent,
        !cli.count && !cli.quiet ==> c is Summary,
{
}

/// A summary tells the number of changes, then the number of files, and tells
/// a dry run from one that wrote.
pub proof fn law_summary_tells_the_numbers(files: nat, total: nat, dry_run: bool)
    ensures
        dry_run ==> human::summary_text(files, total, dry_run) == "ripsed: dry run — "@
            + strings::decimal(total) + " change(s) in "@ + strings::decimal(files)
            + " file(s) (not applied)"@,
        !dry_run ==> human::summary_text(files, total, dry_run) == "ripsed: "@ + strings::decimal(
            total,
        ) + " change(s) applied in "@ + strings::decimal(files) + " file(s)"@,
{
}

/// A change is shown as the lines before it, the line as it was, the lines
/// that it became, the lines behind it and an empty line, in this order.
pub proof fn law_change_is_shown(c: ChangeView, i: int)
    requires
        0 <= i < human::change_lines(c).len(),
    ensures
        ({
            let shown = human::change_lines(c);
            let before = match c.context {
                Some(around) => around.before,
                None => Seq::<Seq<char>>::empty(),
            };
            let after = match c.context {
                Some(around) => around.after,
                None => Seq::<Seq<char>>::empty(),
            };
            let became = match c.after {
                Some(text) => lines::lines(text),
                None => Seq::<Seq<char>>::empty(),
            };
            let b = before.len();
            let n = became.len();
            &&& shown.len() == b + 1 + n + after.len() + 1
            &&& i < b ==> shown[i] == DiffView::Context(before[i])
            &&& i == b ==> shown[i] == DiffView::Removed(c.before)
            &&& b < i <= b + n ==> shown[i] == DiffView::Added(became[i - b - 1])
            &&& b + n < i < shown.len() - 1 ==> shown[i] == DiffView::Context(after[i - b - n - 1])
            &&& i == shown.len() - 1 ==> shown[i] is Blank
        }),
{
}

/// The listing of a file starts with its path and tells at its end how many
/// changes it leaves out: those beyond the first fifty.
pub proof fn law_listing_starts_with_the_path(path: Seq<char>, cs: Seq<ChangeView>, total: int)
    requires
        cs.len() <= total,
    ensures
        ({
            let shown = human::file_lines(path, cs, total);
            &&& shown.len() > 0
            &&& shown[0] == DiffView::Header(path)
            &&& cs.len() == total && total <= 50 ==> !(shown.last() is More)
            &&& cs.len() < total && total <= 50 ==> shown.last() == DiffView::More(total - cs.len())
            &&& total > 50 && cs.len() >= 50 ==> shown.last() == DiffView::More(total - 50)
        }),
{
    if cs.len() == total && total <= 50 {
        if cs.len() > 0 {
            let n = cs.len() as int;
            assert(human::changes_lines(cs, n) == human::changes_lines(cs, n - 1)
                + human::change_lines(cs[n - 1]));
            assert(human::change_lines(cs[n - 1]).last() is Blank);
            assert(human::file_lines(path, cs, total).last() is Blank);
        } else {
            assert(human::file_lines(path, cs, total).last() == DiffView::Header(path));
        }
    }
}

/// A question names the file and the number of its changes, and then goes
/// through them: the line's number, the line as it is, and what it would be.
pub proof fn law_question_lists_the_changes(path: Seq<char>, cs: Seq<ChangeView>, c: ChangeView)
    ensures
        human::prompt_of(path, cs)[0] == (PromptView::Heading {
            path,
            count: human::count_text(cs.len()),
        }),
        c.after matches Some(a) ==> human::asked(c) == seq![
            PromptView::Line(c.line),
            PromptView::Removed(c.before),
            PromptView::Added(a),
        ],
        c.after is None ==> human::asked(c) == seq![
            PromptView::Line(c.line),
            PromptView::Removed(c.before),
        ],
        human::prompt_of(path, cs.push(c)).skip(1) == human::prompt_of(path, cs).skip(1)
            + human::asked(c),
        human::count_text(1) == strings::decimal(1) + " change"@,
        cs.len() != 1 ==> human::count_text(cs.len()) == strings::decimal(cs.len()) + " changes"@,
{
    lemma_asked_prefix(cs, c, cs.len() as int);
    assert(human::prompt_of(path, cs.push(c)).skip(1) =~= human::prompt_of(path, cs).skip(1)
        + human::asked(c));
}

/// Questions about the first changes do not hang on those behind them.
proof fn lemma_asked_prefix(cs: Seq<ChangeView>, c: ChangeView, n: int)
    requires
        0 <= n <= cs.len(),
    ensures
        human::all_asked(cs.push(c), n) == human::all_asked(cs, n),
    decreases n,
{
    if n > 0 {
        lemma_asked_prefix(cs, c, n - 1);
    }
}

// ---------------------------------------------------------------------------
// Pipes
// ---------------------------------------------------------------------------

/// Where a pipe cannot start, nothing is written, something is said, and the
/// exit code is 2.
pub proof fn law_pipe_fails_aloud(cli: Cli, data: Seq<u8>)
    requires
        !valid_utf8(data) || cli.find is None,
    ensures
        pipe::pipe_result(cli, data).stdout.len() == 0,
        pipe::pipe_result(cli, data).stderr is Some,
        pipe::pipe_result(cli, data).exit == Err::<(), i32>(2),
{
}

/// A pattern that does not compile ends a pipe in the same way.
pub proof fn law_bad_pattern_ends_the_pipe(cli: Cli, data: Seq<u8>)
    requires
        valid_utf8(data),
        cli.find is Some,
        matcher::is_compiled(cli::op_of_cli(cli, cli.find->0@)),
        rex::regex_compile_error(matcher::compiled_source(cli::op_of_cli(cli, cli.find->0@))) is Some,
    ensures
        pipe::pipe_result(cli, data).stdout.len() == 0,
        pipe::pipe_result(cli, data).stderr is Some,
        pipe::pipe_result(cli, data).exit == Err::<(), i32>(2),
{
}

/// Whether `range` is what the arguments ask for: the patterns where there are
/// any, else the line numbers, else the whole text.
pub open spec fn is_range_of(cli: Cli, range: Option<RangeView>) -> bool {
    match range {
        Some(RangeView::Patterns { start, end }) => cli.range matches Some(p) && p.start_pattern@ == start
            && p.end_pattern@ == end,
        Some(RangeView::Lines(l)) => cli.range is None && cli.line_range == Some(l),
        None => cli.range is None && cli.line_range is None,
    }
}

/// What a pipe writes is what the operation makes of the text in the range
/// that is asked for, or the number of changes; the exit code tells whether
/// there were any.
pub proof fn law_pipe_does_the_operation(cli: Cli, data: Seq<u8>, range: Option<RangeView>)
    requires
        valid_utf8(data),
        cli.find is Some,
        is_range_of(cli, range),
        ({
            let op = cli::op_of_cli(cli, cli.find->0@);
            matcher::is_compiled(op) ==> rex::regex_compile_error(matcher::compiled_source(op))
                is None
        }),
    ensures
        ({
            let op = cli::op_of_cli(cli, cli.find->0@);
            let text = decode_utf8(data);
            let got = pipe::pipe_result(cli, data);
            match engine::apply_result(text, op, matcher::matcher_of(op), range, 0) {
                Ok(out) => {
                    &&& got.stderr is None
                    &&& got.exit is Ok <==> out.changes.len() > 0
                    &&& got.exit is Err ==> got.exit == Err::<(), i32>(1)
                    &&& cli.count ==> got.stdout == strings::decimal(out.changes.len()) + "\n"@
                    &&& !cli.count && out.text is Some ==> got.stdout == out.text->0
                    &&& !cli.count && out.text is None ==> got.stdout == text
                },
                Err(_) => {
                    &&& got.stdout.len() == 0
                    &&& got.stderr is Some
                    &&& got.exit == Err::<(), i32>(2)
                },
            }
        }),
{
}

/// A stream in a pipe writes a line for each line that it reads, unless it
/// counts: then it writes nothing before the end, and then the number of
/// changes on a line of its own.
pub proof fn law_counting_pipe_is_silent(p: PipeView, line: Seq<char>)
    requires
        p.stage is Reading,
    ensures
        ({
            let q = pipe::answered(p, PipeEventView::Line(line));
            &&& q.fed == p.fed.push(line)
            &&& q.stage is Reading <==> p.count
            &&& q.stage is Emitting <==> !p.count
        }),
        ({
            let q = pipe::answered(p, PipeEventView::EndOfInput);
            &&& p.count ==> q.stage == (PipeStageView::Counting {
                text: strings::decimal(pipe::pipe_changes(p)) + "\n"@,
            })
            &&& !p.count ==> q.stage is Flushing
            &&& q.fed == p.fed
        }),
{
}

/// The number of changes that a pipe tells is that of the changes that the
/// stream makes in all the lines that were read.
pub proof fn law_pipe_counts_every_line(p: PipeView)
    ensures
        pipe::pipe_changes(p) == stream::stream_changes(
            p.op.action,
            p.matcher,
            p.range,
            p.fed,
            p.fed.len() as int,
        ).len(),
{
}

/// A stream in a pipe ends in one of four ways: with 2 and a message where
/// reading or writing failed; in peace where nobody reads its lines any more;
/// else with 1 where nothing was changed, and in peace where something was.
pub proof fn law_pipe_ends(p: PipeView, e: Seq<char>)
    ensures
        p.stage is Reading || p.stage is Emitting || p.stage is Flushing ==> (pipe::answered(
            p,
            PipeEventView::Failed(e),
        ).stage matches PipeStageView::Finished { message, exit } && message is Some && exit == Err::<
            (),
            i32,
        >(2)),
        p.stage is Emitting ==> pipe::answered(p, PipeEventView::Closed).stage == (
        PipeStageView::Finished { message: None, exit: Ok(()) }),
        p.stage is Emitting ==> pipe::answered(p, PipeEventView::Done).stage is Reading,
        p.stage is Counting ==> pipe::answered(p, PipeEventView::Done).stage is Flushing,
        p.stage is Counting ==> pipe::answered(p, PipeEventView::Closed).stage is Flushing,
        p.stage is Counting ==> pipe::answered(p, PipeEventView::Failed(e)).stage is Flushing,
        p.stage is Flushing && pipe::pipe_changes(p) == 0 ==> pipe::answered(
            p,
            PipeEventView::Done,
        ).stage == (PipeStageView::Finished { message: None, exit: Err(1i32) }),
        p.stage is Flushing && pipe::pipe_changes(p) > 0 ==> pipe::answered(
            p,
            PipeEventView::Done,
        ).stage == (PipeStageView::Finished { message: None, exit: Ok(()) }),
        p.stage is Flushing ==> pipe::answered(p, PipeEventView::Closed) == pipe::answered(
            p,
            PipeEventView::Done,
        ),
{
}

/// A stream in a pipe goes on with the same operation in the same range.
pub proof fn law_pipe_stays_about_the_same(p: PipeView, event: PipeEventView)
    ensures
        ({
            let q = pipe::answered(p, event);
            &&& q.op == p.op
            &&& q.matcher == p.matcher
            &&& q.range == p.range
            &&& q.count == p.count
            &&& p.stage is Finished ==> q == p
            &&& !(event is Line) ==> q.fed == p.fed
        }),
{
}

} // verus!
