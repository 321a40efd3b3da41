//! Laws of calls: what the steps of a run ask of the outside, and what goes
//! into a call and comes out of it.
use vstd::prelude::*;

use crate::apply;
use crate::apply::ApplyError;
use crate::apply::ApplyErrorView;
use crate::apply::ApplyJob;
use crate::apply::ApplyOptions;
use crate::apply::ApplyStageView;
use crate::apply::ApplyStep;
use crate::apply::FileResult;
use crate::cli;
use crate::cli::Cli;
use crate::cli::PipeError;
use crate::cli::PipeOp;
use crate::confirm::ConfirmOptions;
use crate::confirm::ConfirmRun;
use crate::confirm::ConfirmStageView;
use crate::confirm::ConfirmStep;
use crate::diff;
use crate::diff::Change;
use crate::diff::OpResult;
use crate::encoding;
use crate::encoding::DecodeError;
use crate::encoding::SourceEncoding;
use crate::engine;
use crate::error::RipsedError;
use crate::globs::FileName;
use crate::json_run;
use crate::json_run::JsonReport;
use crate::json_run::JsonRun;
use crate::json_run::JsonStageView;
use crate::json_run::JsonStep;
use crate::matcher::Matcher;
use crate::matcher::MatcherView;
use crate::operation;
use crate::operation::LineRange;
use crate::operation::Op;
use crate::operation::OpOptions;
use crate::operation::PatternRange;
use crate::operation::RangeSpec;
use crate::operation::RangeView;
use crate::operation::TransformMode;
use crate::pipe::PipeStageView;
use crate::pipe::PipeStep;
use crate::pipe::PipeStream;
use crate::process::FileAction;
use crate::process::FileJob;
use crate::process::FileOutcome;
use crate::process::ProcessOptions;
use crate::process::StageView;
use crate::rex;
use crate::run;
use crate::run::RunTotals;
use crate::run::ScriptRun;
use crate::run_laws;
use crate::undo::UndoLog;
use crate::writer::AtomicBatch;
use crate::writer::BatchCommit;
use crate::writer::CommitStageView;
use crate::writer::CommitStep;

verus! {

// ---------------------------------------------------------------------------
// What is asked for
// ---------------------------------------------------------------------------

/// A job asks for what its stage waits for, and writes the bytes that it means
/// to write; a dry run has no temporary file.
pub proof fn law_job_asks(j: FileJob, a: FileAction)
    requires
        call_ensures(FileJob::action, (&j,), a),
    ensures
        a is Lock <==> j@.stage is Locking,
        a is Size <==> j@.stage is Sizing,
        a is Prefix <==> j@.stage is Probing,
        a is Read <==> j@.stage is Reading,
        a is Backup <==> (j@.stage is BackingUp || j@.stage is SavingOriginal),
        a is Write <==> j@.stage is Writing,
        a is OpenStream <==> j@.stage is Opening,
        a is ReadLine <==> j@.stage is Streaming,
        a is Emit <==> j@.stage is Emitting,
        a is Flush <==> j@.stage is Flushing,
        a is Persist <==> j@.stage is Persisting,
        a is Finish <==> j@.stage is Finished,
        a matches FileAction::Write(b) ==> (j@.stage matches StageView::Writing { bytes, .. } && b@
            == bytes),
        a matches FileAction::Emit(s) ==> (j@.stage matches StageView::Emitting { text, .. } && s@
            == text),
        a matches FileAction::OpenStream { temporary } ==> temporary == !j@.run.dry_run,
{
}

/// A run on a request asks for what its stage waits for, of the file that it
/// is at.
pub proof fn law_json_run_asks(j: JsonRun, a: JsonStep)
    requires
        call_ensures(JsonRun::action, (&j,), a),
        0 <= j@.file <= usize::MAX,
    ensures
        a is Lock <==> j@.stage is Locking,
        a is Read <==> j@.stage is Reading,
        a is Reuse <==> j@.stage is Reusing,
        a is Report <==> j@.stage is Reporting,
        a is Backup <==> j@.stage is BackingUp,
        a is Write <==> j@.stage is Writing,
        a is Commit <==> j@.stage is Committing,
        a is Finish <==> (j@.stage is Finished || j@.stage is Ready),
        a matches JsonStep::Lock(k) ==> k == j@.file,
        a matches JsonStep::Read(k) ==> k == j@.file,
        a matches JsonStep::Reuse(k) ==> k == j@.file,
        a matches JsonStep::Backup(k) ==> k == j@.file,
        a matches JsonStep::Write(k, b) ==> k == j@.file && (
        j@.stage matches JsonStageView::Writing { bytes } && b@ == bytes),
{
}

/// A commit saves, replaces and puts back one file after the other; it puts
/// back what the file held, and removes a file that was not there.
pub proof fn law_commit_asks(c: BatchCommit, a: CommitStep)
    requires
        call_ensures(BatchCommit::action, (&c,), a),
        c@.total <= usize::MAX,
        c@.committed <= c@.total,
        0 <= c@.committed,
    ensures
        a is Save <==> c@.stage is Saving,
        a is Persist <==> c@.stage is Persisting,
        a is Restore || a is Remove <==> c@.stage is RollingBack,
        a is Finish <==> c@.stage is Finished,
        a matches CommitStep::Save(k) ==> k == c@.originals.len(),
        a matches CommitStep::Persist(k) ==> k == c@.committed,
        a matches CommitStep::Restore(k, b) ==> (
        c@.stage matches CommitStageView::RollingBack { next, .. } && k == next
            && c@.originals[next] == Some(b@)),
        a is Remove ==> (c@.stage matches CommitStageView::RollingBack { next, .. }
            && c@.originals[next] is None),
{
}

/// A run that asks before it writes asks for what its stage waits for.
pub proof fn law_confirm_run_asks(c: ConfirmRun, a: ConfirmStep)
    requires
        call_ensures(ConfirmRun::action, (&c,), a),
    ensures
        a is Next <==> c@.stage is Idle,
        a is Lock <==> c@.stage is Locking,
        a is Read <==> c@.stage is Reading,
        a is Ask <==> c@.stage is Asking,
        a is Show <==> c@.stage is Showing,
        a is Backup <==> c@.stage is BackingUp,
        a is Write <==> c@.stage is Writing,
        a is Quit <==> c@.stage is Over,
        a matches ConfirmStep::Write(b) ==> (c@.stage matches ConfirmStageView::Writing { bytes }
            && b@ == bytes),
{
}

/// An application writes its text in the encoding that the file was read in.
pub proof fn law_application_asks(j: ApplyJob, s: ApplyStep)
    requires
        call_ensures(ApplyJob::action, (&j,), s),
    ensures
        s is Lock <==> j@.stage is Locking,
        s is Read <==> j@.stage is Reading,
        s is Backup <==> j@.stage is BackingUp,
        s is Write <==> (j@.stage matches ApplyStageView::Writing { output, .. } && output.text
            is Some),
        s matches ApplyStep::Write(b) ==> (j@.stage matches ApplyStageView::Writing {
            output,
            encoding,
        } && b@ == encoding::encoded(output.text->0, encoding)),
{
}

/// An application starts with the lock, or with the file in a dry run, and is
/// about the file, the operation and the options that it was given.
pub proof fn law_application_starts(path: &str, op: Op, options: ApplyOptions, j: ApplyJob)
    requires
        call_ensures(apply::apply_to_file, (path, &op, &options), j),
    ensures
        j@.path == path@,
        j@.op == op@,
        j@.options == options,
        j@.stage is Locking <==> !options.dry_run,
        j@.stage is Reading <==> options.dry_run,
{
}

/// A stream in a pipe writes the text of its stage.
pub proof fn law_pipe_asks(p: PipeStream, a: PipeStep)
    requires
        call_ensures(PipeStream::action, (&p,), a),
    ensures
        a is ReadLine <==> p@.stage is Reading,
        a is Emit <==> (p@.stage is Emitting || p@.stage is Counting),
        a is Flush <==> p@.stage is Flushing,
        a is Finish <==> p@.stage is Finished,
        a matches PipeStep::Emit(s) ==> match p@.stage {
            PipeStageView::Emitting { text } => s@ == text,
            PipeStageView::Counting { text } => s@ == text,
            _ => false,
        },
{
}

/// A stream in a pipe has a result when it is finished, and not before.
pub proof fn law_pipe_has_a_result(p: PipeStream, r: Option<(Option<String>, Result<(), i32>)>)
    requires
        call_ensures(PipeStream::result, (&p,), r),
    ensures
        r is Some <==> p@.stage is Finished,
        p@.stage matches PipeStageView::Finished { message, exit } ==> (r->0).1 == exit && ((
        r->0).0 is Some <==> message is Some),
        p@.stage matches PipeStageView::Finished { message, .. } ==> (message matches Some(m) ==> (
        r->0).0->0@ == m),
{
}

// ---------------------------------------------------------------------------
// What comes out
// ---------------------------------------------------------------------------

/// A run on a request exits with 2 after an error, else with 1 where no file
/// had a match; it is a success where there was no error.
pub proof fn law_report_exits(report: JsonReport, b: bool, r: Result<(), i32>)
    requires
        call_ensures(JsonReport::success, (&report,), b),
        call_ensures(JsonReport::exit, (&report,), r),
    ensures
        b <==> report.errors@.len() == 0,
        r == Err::<(), i32>(2) <==> !b,
        r == Err::<(), i32>(1) <==> b && report.summary.files_matched == 0,
        r is Ok <==> b && report.summary.files_matched > 0,
{
}

/// A log is kept unless the run is dry or it is not wanted.
pub proof fn law_undo_is_kept(cli: Cli, b: bool)
    requires
        call_ensures(run::keeps_undo, (&cli,), b),
    ensures
        b <==> !(cli.dry_run || cli.no_undo),
{
}

/// Three lines around a change are shown, and none where no change is shown.
pub proof fn law_context_is_shown(cli: Cli, n: usize)
    requires
        call_ensures(cli::display_context_lines, (&cli,), n),
    ensures
        cli.quiet || cli.count ==> n == 0,
        !cli.quiet && !cli.count ==> n == 3,
{
}

/// The range of the arguments is that of its patterns where there are any,
/// else that of its line numbers.
pub proof fn law_range_of_arguments(cli: Cli, r: Option<RangeSpec>)
    requires
        call_ensures(cli::cli_range, (&cli,), r),
    ensures
        run_laws::is_range_of(cli, operation::range_view(r)),
{
}

/// Patterns go before line numbers, and without either there is no range.
pub proof fn law_range_is_chosen(
    patterns: Option<PatternRange>,
    numbers: Option<LineRange>,
    r: Option<RangeSpec>,
)
    requires
        call_ensures(operation::choose_range, (&patterns, numbers), r),
    ensures
        patterns is Some ==> operation::range_view(r) == Some(
            RangeView::Patterns {
                start: patterns->0.start_pattern@,
                end: patterns->0.end_pattern@,
            },
        ),
        patterns is None && numbers is Some ==> operation::range_view(r) == Some(
            RangeView::Lines(numbers->0),
        ),
        patterns is None && numbers is None ==> r is None,
{
}

/// A line is in a range from its first line to its last, both included; a
/// range without a last line is open.
pub proof fn law_line_is_in_range(range: LineRange, line: usize, b: bool)
    requires
        call_ensures(LineRange::contains, (&range, line), b),
    ensures
        range.end matches Some(end) ==> (b <==> range.start <= line <= end),
        range.end is None ==> (b <==> range.start <= line),
{
}

/// A pipe is set up with the operation and the range of the arguments, or says
/// that there is no pattern, or that it does not compile.
pub proof fn law_pipe_is_set_up(cli: Cli, r: Result<PipeOp, PipeError>)
    requires
        call_ensures(cli::build_pipe_op, (&cli,), r),
    ensures
        cli.find is None ==> r == Err::<PipeOp, PipeError>(PipeError::MissingPattern),
        r matches Ok(p) ==> {
            &&& p.op@ == cli::op_of_cli(cli, cli.find->0@)
            &&& run_laws::is_range_of(cli, operation::range_view(p.range))
        },
        r matches Err(PipeError::BadPattern(_)) ==> cli.find is Some,
{
}

/// A pattern is looked for as it is written: a regular expression as one, a
/// literal as one, with the mark for either case in front where case does not
/// matter.
pub proof fn law_matcher_is_built(op: Op, r: Result<Matcher, RipsedError>)
    requires
        call_ensures(Matcher::new, (&op,), r),
        r is Ok,
    ensures
        op@.regex && op@.case_insensitive ==> r->Ok_0@ == (MatcherView::Regex {
            source: "(?i)"@ + op@.find,
        }),
        op@.regex && !op@.case_insensitive ==> r->Ok_0@ == (MatcherView::Regex { source: op@.find }),
        !op@.regex && op@.case_insensitive ==> r->Ok_0@ == (MatcherView::Regex {
            source: "(?i)"@ + rex::escaped(op@.find),
        }),
        !op@.regex && !op@.case_insensitive ==> r->Ok_0@ == (MatcherView::Literal {
            pattern: op@.find,
        }),
{
}

/// A text is replaced in where it matches, and left alone where it does not.
pub proof fn law_replace_needs_a_match(
    m: Matcher,
    text: &str,
    replacement: &str,
    b: bool,
    r: Option<String>,
)
    requires
        call_ensures(Matcher::is_match, (&m, text), b),
        call_ensures(Matcher::replace, (&m, text, replacement), r),
    ensures
        r is Some <==> b,
{
}

/// A limited replacement makes no more replacements than its limit, and all
/// that there are where these are fewer or the limit is 0; it then gives what
/// an unlimited one gives.
pub proof fn law_limited_replace_is_replace(
    m: Matcher,
    text: &str,
    replacement: &str,
    limit: usize,
    all: Option<String>,
    some: Option<(String, usize)>,
)
    requires
        call_ensures(Matcher::replace, (&m, text, replacement), all),
        call_ensures(Matcher::replace_n, (&m, text, replacement, limit), some),
    ensures
        all is Some <==> some is Some,
        some is Some && limit > 0 ==> (some->0).1 <= limit,
        some is Some && (limit == 0 || m@.spans(text@, replacement@).len() <= limit) ==> (
        some->0).0@ == all->0@ && (some->0).1 == m@.spans(text@, replacement@).len(),
        some is Some && 0 < limit < m@.spans(text@, replacement@).len() ==> (some->0).1 == limit,
{
}

/// The result of an operation on a file names the operation, and the file with
/// its changes where there are any.
pub proof fn law_result_of_operation(index: usize, path: &str, changes: Vec<Change>, r: OpResult)
    requires
        call_ensures(engine::build_op_result, (index, path, changes), r),
    ensures
        r.operation_index == index,
        changes@.len() == 0 <==> r.files@.len() == 0,
        changes@.len() > 0 ==> r.files@.len() == 1 && r.files@[0].path@ == path@
            && r.files@[0].changes@ == changes@,
{
}

/// What is encoded is decoded to the same text, in the same encoding; but for
/// a text in plain UTF-8 that starts with a byte-order mark.
pub proof fn law_encode_then_decode(
    text: &str,
    e: SourceEncoding,
    bytes: Vec<u8>,
    r: Result<(String, SourceEncoding), DecodeError>,
)
    requires
        call_ensures(encoding::encode, (text, e), bytes),
        call_ensures(encoding::decode, (bytes,), r),
        e == SourceEncoding::Utf8 ==> text@.len() == 0 || text@[0] != '\u{FEFF}',
    ensures
        r is Ok,
        r->Ok_0.0@ == text@,
        r->Ok_0.1 == e,
{
    encoding::law_decode_of_encode(text@, e);
}

/// A staged file is the last of its batch, under its path, and holds its text
/// in the encoding that it was staged in.
pub proof fn law_file_is_staged(b: &mut AtomicBatch, path: &str, text: &str, e: SourceEncoding)
    requires
        call_ensures(AtomicBatch::stage_encoded, (b, path, text, e), ()),
        e == SourceEncoding::Utf8 ==> text@.len() == 0 || text@[0] != '\u{FEFF}',
    ensures
        final(b)@.len() == old(b)@.len() + 1,
        final(b)@.drop_last() == old(b)@,
        final(b)@.last().0 == path@,
        encoding::detected(final(b)@.last().1) == e,
        encoding::decoded(final(b)@.last().1) == Ok::<Seq<char>, encoding::DecodeErrorView>(text@),
{
    encoding::law_decode_of_encode(text@, e);
    assert(final(b)@.drop_last() =~= old(b)@);
}

/// Text that is staged without an encoding is written in UTF-8, and bytes as
/// they are.
pub proof fn law_text_and_bytes_are_staged(
    a: &mut AtomicBatch,
    b: &mut AtomicBatch,
    path: &str,
    text: &str,
    bytes: Vec<u8>,
)
    requires
        call_ensures(AtomicBatch::stage, (a, path, text), ()),
        call_ensures(AtomicBatch::stage_bytes, (b, path, bytes), ()),
    ensures
        final(a)@.len() == old(a)@.len() + 1,
        final(a)@.last() == (path@, vstd::utf8::encode_utf8(text@)),
        final(b)@.len() == old(b)@.len() + 1,
        final(b)@.last() == (path@, bytes@),
{
    let made = encoding::encoded(text@, SourceEncoding::Utf8);
    assert(made =~= vstd::utf8::encode_utf8(text@));
}

/// An application to several files tells the changed ones in their order, each
/// with its changes, or the first that failed.
pub proof fn law_files_are_applied_in_order(
    results: Vec<(String, Result<engine::EngineOutput, ApplyError>)>,
    dry_run: bool,
    r: Result<Vec<FileResult>, ApplyError>,
    k: int,
)
    requires
        call_ensures(apply::apply_to_files, (results, dry_run), r),
        0 <= k < results@.len(),
    ensures
        results@[k].1 is Err ==> r is Err,
        r matches Ok(v) ==> (results@[k].1 matches Ok(o) && (o.changes@.len() > 0 ==> exists|i: int|
            #![trigger v@[i]]
            0 <= i < v@.len() && v@[i].path == results@[k].0 && v@[i].changes == o.changes)),
        r matches Err(e) ==> exists|i: int| #![trigger results@[i]]
            0 <= i < results@.len() && results@[i].1 == Err::<engine::EngineOutput, ApplyError>(e)
                && forall|h: int| #![trigger results@[h]] 0 <= h < i ==> results@[h].1 is Ok,
{
    lemma_first_failure(results@, 0);
    if r is Ok {
        lemma_changed_count(results@, k, results@.len() as int);
        let v = r->Ok_0;
        if results@[k].1->Ok_0.changes@.len() > 0 {
            assert(v@[apply::changed_count(results@, k) as int].path == results@[k].0);
        }
    }
}

/// The first failure is one, and there is none before it.
proof fn lemma_first_failure(
    results: Seq<(String, Result<engine::EngineOutput, ApplyError>)>,
    from: int,
)
    requires
        0 <= from <= results.len(),
    ensures
        from <= apply::first_failure(results, from) <= results.len(),
        apply::first_failure(results, from) < results.len() ==> results[apply::first_failure(
            results,
            from,
        )].1 is Err,
        forall|h: int| #![trigger results[h]]
            from <= h < apply::first_failure(results, from) ==> results[h].1 is Ok,
    decreases results.len() - from,
{
    if from < results.len() {
        lemma_first_failure(results, from + 1);
    }
}

/// Changed files are counted one by one.
proof fn lemma_changed_count(
    results: Seq<(String, Result<engine::EngineOutput, ApplyError>)>,
    k: int,
    n: int,
)
    requires
        0 <= k < n <= results.len(),
    ensures
        results[k].1 matches Ok(o) && o.changes@.len() > 0 ==> apply::changed_count(results, k)
            < apply::changed_count(results, n),
        apply::changed_count(results, k) <= apply::changed_count(results, n),
    decreases n,
{
    if k < n - 1 {
        lemma_changed_count(results, k, n - 1);
    }
}

/// A script that fails in one place goes on with what it did, and is in error.
pub proof fn law_script_failure_is_kept(before: ScriptRun, after: ScriptRun)
    requires
        call_ensures(ScriptRun::fail, (before,), after),
    ensures
        after.run().had_errors,
        after.run().total_changes == before.run().total_changes,
        after.run().files_modified == before.run().files_modified,
        after.run().log == before.run().log,
        after.modified() == before.modified(),
        after.backups() == before.backups(),
{
}

// ---------------------------------------------------------------------------
// What a run starts with and ends with
// ---------------------------------------------------------------------------

/// A run on a request is about the operations, the options and the files that
/// it is given, with nothing done, and each file is chosen by the pattern of
/// the operation.
pub proof fn law_json_run_starts(
    ops: Vec<(Op, Option<String>)>,
    options: OpOptions,
    names: Vec<FileName>,
    jsonl: bool,
    log: Option<UndoLog>,
    r: JsonRun,
    k: int,
    i: int,
)
    requires
        call_ensures(JsonRun::new, (&ops, &options, &names, jsonl, log), r),
        0 <= k < ops@.len(),
        0 <= i < names@.len(),
    ensures
        r@.ops.len() == ops@.len(),
        r@.ops[k] == ops@[k].0@,
        r@.options == options@,
        r@.files == names@,
        r@.jsonl == jsonl,
        r@.log is Some <==> log is Some,
        log is Some ==> r@.log->0 == log->0@,
        r@.results.len() == 0,
        r@.pending.len() == 0,
        r@.summary.files_matched == 0,
        r@.summary.files_modified == 0,
        r@.summary.total_replacements == 0,
        ops@[k].1 is None ==> r@.selected[k][i],
{
    let selected = choose|selected: Seq<Seq<bool>>| #[trigger]
        json_run::follows_globs(ops@, names@, selected) && r@ == json_run::json_start(
            json_run::ops_view(ops@),
            options@,
            names@,
            jsonl,
            selected,
            run::log_view(log),
        );
    json_run::law_run_starts_with_nothing(
        json_run::ops_view(ops@),
        options@,
        names@,
        jsonl,
        selected,
        run::log_view(log),
    );
    assert(json_run::follows_glob(ops@[k].1, names@, selected[k]));
    assert(selected[k][i] == selected[k][i]);
}

/// The report of a run holds its counts, its results, its errors and its log.
pub proof fn law_report_is_of_the_run(j: JsonRun, report: JsonReport)
    requires
        call_ensures(JsonRun::into_report, (j,), report),
    ensures
        report.summary.files_matched == j@.summary.files_matched,
        report.summary.files_modified == j@.summary.files_modified,
        report.summary.total_replacements == j@.summary.total_replacements,
        report.results@.len() == j@.results.len(),
        report.errors@.len() == j@.errors.len(),
        forall|k: int| #![trigger report.results@[k]]
            0 <= k < report.results@.len() ==> report.results@[k]@ == j@.results[k],
        forall|k: int| #![trigger report.errors@[k]]
            0 <= k < report.errors@.len() ==> report.errors@[k]@ == j@.errors[k],
        report.log is Some <==> j@.log is Some,
{
    assert forall|k: int| 0 <= k < report.results@.len() implies #[trigger] report.results@[k]@
        == j@.results[k] by {
        assert(diff::results_view(report.results@)[k] == report.results@[k]@);
    }
    assert forall|k: int| 0 <= k < report.errors@.len() implies #[trigger] report.errors@[k]@
        == j@.errors[k] by {
        assert(json_run::errors_view(report.errors@)[k] == report.errors@[k]@);
    }
}

/// A job is about the operation, the pattern, the options and the file that it
/// is given, and its outcome is that of its steps.
pub proof fn law_job_starts(
    op: Op,
    m: Matcher,
    options: OpOptions,
    settings: ProcessOptions,
    path: &str,
    j: FileJob,
    o: FileOutcome,
)
    requires
        call_ensures(FileJob::new, (&op, &m, &options, settings, path), j),
        call_ensures(FileJob::into_outcome, (j,), o),
    ensures
        j@.op == op@,
        j@.matcher == m@,
        j@.options == options@,
        j@.run == settings,
        o@.path == path@,
        o@.total == 0,
        !o@.modified,
        o@.undo is None,
        o@.errors.len() == 0,
{
}

/// A run that asks before it writes starts with the counts that it is given,
/// agrees to nothing beforehand, and has said nothing.
pub proof fn law_confirm_run_starts(
    op: Op,
    m: Matcher,
    options: OpOptions,
    settings: ConfirmOptions,
    totals: RunTotals,
    c: ConfirmRun,
)
    requires
        call_ensures(ConfirmRun::new, (&op, &m, &options, settings, totals), c),
    ensures
        c@.op == op@,
        c@.matcher == m@,
        c@.options == options@,
        c@.settings == settings,
        c@.totals == totals@,
        !c@.apply_all,
        c@.messages.len() == 0,
        c@.stage is Idle,
{
}

/// A file is opened under its own path, behind its lock unless the run is dry.
pub proof fn law_confirm_run_opens(before: ConfirmRun, path: &str, after: ConfirmRun)
    requires
        before@.stage is Idle,
        call_ensures(ConfirmRun::open, (before, path), after),
    ensures
        after@.path == path@,
        after@.stage is Reading <==> before@.settings.dry_run,
        after@.stage is Locking <==> !before@.settings.dry_run,
        after@.totals == before@.totals,
        after@.apply_all == before@.apply_all,
        after@.messages == before@.messages,
{
}

// ---------------------------------------------------------------------------
// Words
// ---------------------------------------------------------------------------

/// The names of the cases; two of them have a short form.
pub proof fn law_names_of_cases(s: &str, r: Result<TransformMode, String>)
    requires
        call_ensures(cli::parse_transform_mode, (s,), r),
    ensures
        r == Ok::<TransformMode, String>(TransformMode::Upper) <==> s@ == "upper"@,
        r == Ok::<TransformMode, String>(TransformMode::Lower) <==> s@ == "lower"@,
        r == Ok::<TransformMode, String>(TransformMode::Title) <==> s@ == "title"@,
        r == Ok::<TransformMode, String>(TransformMode::SnakeCase) <==> (s@ == "snake_case"@ || s@
            == "snake"@),
        r == Ok::<TransformMode, String>(TransformMode::CamelCase) <==> (s@ == "camel_case"@ || s@
            == "camel"@),
{
    reveal_strlit("upper");
    reveal_strlit("lower");
    reveal_strlit("title");
    reveal_strlit("snake_case");
    reveal_strlit("snake");
    reveal_strlit("camel_case");
    reveal_strlit("camel");
    assert("upper"@[0] == 'u' && "lower"@[0] == 'l' && "title"@[0] == 't');
    assert("snake_case"@[0] == 's' && "snake"@[0] == 's');
    assert("camel_case"@[0] == 'c' && "camel"@[0] == 'c');
}

/// An application that failed says at what, for which file and why.
pub proof fn law_application_says_why(path: Seq<char>, why: Seq<char>)
    ensures
        apply::apply_message(ApplyErrorView::Lock(path, why)) == "failed to lock "@ + path + ": "@
            + why,
        apply::apply_message(ApplyErrorView::Read(path, why)) == "failed to read "@ + path + ": "@
            + why,
        apply::apply_message(ApplyErrorView::Backup(path, why)) == "backup failed for "@ + path
            + ": "@ + why,
        apply::apply_message(ApplyErrorView::Write(path, why)) == "write failed for "@ + path + ": "@
            + why,
{
}

} // verus!
