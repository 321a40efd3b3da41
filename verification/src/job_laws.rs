//! Laws of jobs: what is written to a file, what is kept to take it back, and
//! what is told of it, in each of the ways that a file is edited.
use vstd::prelude::*;

use crate::apply;
use crate::apply::{ApplyErrorView, ApplyEventView, ApplyStageView, ApplyView};
use crate::confirm;
use crate::confirm::{ConfirmAction, ConfirmEventView, ConfirmStageView, ConfirmView};
use crate::edits::OutputView;
use crate::encoding;
use crate::encoding::SourceEncoding;
use crate::engine;
use crate::error::ErrorView;
use crate::json_run;
use crate::matcher;
use crate::operation::RangeView;
use crate::process;
use crate::process::{EventView, JobView, ProcessOptions, StageView};
use crate::run;
use crate::stream;
use crate::undo;
use crate::undo::LogView;

verus! {

proof fn lemma_encoded_is_text(text: Seq<char>, e: SourceEncoding)
    ensures
        json_run::are_text(encoding::encoded(text, e), text, e),
{
    if !(e == SourceEncoding::Utf8 && text.len() > 0 && text[0] == '\u{FEFF}') {
        encoding::law_decode_of_encode(text, e);
    }
}

// ---------------------------------------------------------------------------
// One file
// ---------------------------------------------------------------------------

/// What the operation of a job makes of a text, in the range of its options.
pub open spec fn job_makes(j: JobView, text: Seq<char>) -> Result<OutputView, ErrorView> {
    engine::apply_result(
        text,
        j.op,
        j.matcher,
        j.options.range_spec(),
        j.run.context_lines as int,
    )
}

/// A file that was read as a whole and is changed is written in the encoding
/// that it was read in, as the text that the operation gives; behind a backup
/// where one is asked for, and not at all in a dry run. What takes it back is
/// the text that was read, with its encoding. The changes are told, all of them.
pub proof fn law_job_writes_alike(j: JobView, bytes: Seq<u8>)
    requires
        j.stage is Reading,
    ensures
        ({
            let w = process::answered(j, EventView::Bytes(bytes));
            let e = encoding::detected(bytes);
            match encoding::decoded(bytes) {
                Err(_) => {
                    &&& w.stage is Finished
                    &&& w.outcome.errors.len() == j.outcome.errors.len() + 1
                    &&& w.outcome.changes == j.outcome.changes
                },
                Ok(text) => match job_makes(j, text) {
                    Err(_) => {
                        &&& w.stage is Finished
                        &&& w.outcome.errors.len() == j.outcome.errors.len() + 1
                        &&& w.outcome.changes == j.outcome.changes
                    },
                    Ok(out) => {
                        &&& w.outcome.errors == j.outcome.errors
                        &&& out.changes.len() == 0 ==> w.stage is Finished && w.outcome == j.outcome
                        &&& out.changes.len() > 0 ==> {
                            &&& w.outcome.changes == out.changes
                            &&& w.outcome.total == out.changes.len()
                        }
                        &&& j.run.dry_run ==> w.stage is Finished
                        &&& out.changes.len() > 0 && !j.run.dry_run && out.text is Some ==> {
                            let undo = match out.undo {
                                Some(original) => Some((original, e)),
                                None => None,
                            };
                            if j.options.backup && !j.run.skip_backup {
                                &&& w.stage matches StageView::BackingUp { bytes, undo: u }
                                &&& json_run::are_text(bytes, out.text->0, e)
                                &&& u == undo
                            } else {
                                &&& w.stage matches StageView::Writing { bytes, undo: u }
                                &&& json_run::are_text(bytes, out.text->0, e)
                                &&& u == undo
                            }
                        }
                    },
                },
            }
        }),
{
    if let Ok(text) = encoding::decoded(bytes) {
        if let Ok(out) = job_makes(j, text) {
            if out.text is Some {
                lemma_encoded_is_text(out.text->0, encoding::detected(bytes));
            }
        }
    }
}

/// What is written behind a backup is what was to be written; a file that was
/// written is modified, with what takes it back.
pub proof fn law_job_keeps_what_it_writes(j: JobView)
    ensures
        j.stage matches StageView::BackingUp { bytes, undo } ==> process::answered(
            j,
            EventView::Done,
        ) == (JobView { stage: StageView::Writing { bytes, undo }, ..j }),
        j.stage matches StageView::Writing { undo, .. } ==> {
            let w = process::answered(j, EventView::Done);
            &&& w.stage is Finished
            &&& w.outcome.modified
            &&& w.outcome.undo == undo
            &&& w.outcome.changes == j.outcome.changes
            &&& w.outcome.total == j.outcome.total
            &&& w.outcome.errors == j.outcome.errors
        },
        j.stage is Persisting ==> {
            let w = process::answered(j, EventView::Done);
            &&& w.stage is Finished
            &&& w.outcome.modified
            &&& w.outcome.undo is None
            &&& w.outcome.changes == j.outcome.changes
            &&& w.outcome.total == j.outcome.total
        },
{
}

/// What fails ends a job with an error that names the file, with nothing
/// modified; but for the size, which is only looked up to choose a way.
pub proof fn law_job_failure_is_an_error(j: JobView, e: Seq<char>)
    requires
        !(j.stage is Finished),
        !(j.stage is Sizing),
        !(j.stage is Probing),
    ensures
        ({
            let w = process::answered(j, EventView::Failed(e));
            &&& w.stage is Finished
            &&& w.outcome.errors.len() == j.outcome.errors.len() + 1
            &&& w.outcome.errors.drop_last() == j.outcome.errors
            &&& w.outcome.modified == j.outcome.modified
            &&& w.outcome.undo == j.outcome.undo
            &&& matcher::contains(w.outcome.errors.last(), j.outcome.path)
            &&& matcher::contains(w.outcome.errors.last(), e)
        }),
{
    let w = process::answered(j, EventView::Failed(e));
    let m = w.outcome.errors.last();
    let path = j.outcome.path;
    assert(w.outcome.errors.drop_last() =~= j.outcome.errors);
    let lead = if j.stage is BackingUp || j.stage is SavingOriginal {
        "ripsed: backup failed for "@
    } else if j.stage is Writing || j.stage is Emitting || j.stage is Flushing || j.stage
        is Persisting {
        "ripsed: write failed for "@
    } else {
        "ripsed: "@
    };
    assert(m == lead + path + ": "@ + e);
    lemma_holds_middle(lead, path, ": "@ + e);
    assert(lead + path + (": "@ + e) =~= m);
    lemma_holds_middle(lead + path + ": "@, e, Seq::empty());
    assert(lead + path + ": "@ + e + Seq::<char>::empty() =~= m);
}

proof fn lemma_holds_middle(a: Seq<char>, b: Seq<char>, c: Seq<char>)
    ensures
        matcher::contains(a + b + c, b),
{
    assert((a + b + c).subrange(a.len() as int, (a.len() + b.len()) as int) =~= b);
    assert(matcher::occurs_at(a + b + c, b, a.len() as int));
}

/// A file is edited as a stream only where it is large enough, its operation
/// can be, and nothing of it would be kept for an undo; and never where it
/// starts with a byte-order mark or its start could not be read.
pub proof fn law_streams_lose_nothing(j: JobView, size: u64, start: Seq<u8>, e: Seq<char>)
    ensures
        j.stage is Sizing ==> {
            let w = process::answered(j, EventView::Size(size));
            &&& w.stage is Probing || w.stage is Reading
            &&& w.stage is Probing <==> {
                &&& j.run.stream_min_bytes > 0
                &&& size >= j.run.stream_min_bytes
                &&& !j.op.multiline()
                &&& j.options.record_undo ==> j.run.undo_max_file_bytes > 0 && size
                    > j.run.undo_max_file_bytes
            }
            &&& process::answered(j, EventView::Failed(e)).stage is Reading
        },
        j.stage is Probing ==> {
            let w = process::answered(j, EventView::Bytes(start));
            &&& encoding::detected(start) != SourceEncoding::Utf8 ==> w.stage is Reading
            &&& encoding::detected(start) == SourceEncoding::Utf8 ==> w.stage is Opening || w.stage
                is Finished
            &&& process::answered(j, EventView::Failed(e)).stage is Reading
        },
{
}

/// A job starts with the lock of the file, or without it in a dry run, and with
/// nothing done; the lock comes before everything else.
pub proof fn law_job_starts_with_the_lock(
    op: crate::operation::OpView,
    m: crate::matcher::MatcherView,
    options: crate::operation::OptionsView,
    settings: ProcessOptions,
    path: Seq<char>,
)
    ensures
        ({
            let j = process::job_start(op, m, options, settings, path);
            &&& settings.dry_run ==> j.stage is Sizing
            &&& !settings.dry_run ==> j.stage is Locking && process::answered(j, EventView::Done)
                == (JobView { stage: StageView::Sizing, ..j })
            &&& j.op == op
            &&& j.matcher == m
            &&& j.options == options
            &&& j.run == settings
            &&& j.outcome.path == path
            &&& j.outcome.changes.len() == 0
            &&& j.outcome.total == 0
            &&& j.outcome.undo is None
            &&& !j.outcome.modified
            &&& j.outcome.errors.len() == 0
            &&& j.outcome.notes.len() == 0
        }),
{
}

/// A line of a stream is written as what stands in its place, each with the
/// terminator of the line, before the next line is read; a dry run only counts.
pub proof fn law_stream_writes_each_line(j: JobView, fed: Seq<Seq<char>>, raw: Seq<char>)
    requires
        j.stage == (StageView::Streaming { fed }),
    ensures
        ({
            let w = process::answered(j, EventView::Line(raw));
            let range = j.options.range_spec();
            let all = fed.push(raw);
            let n = all.len() as int;
            &&& j.run.dry_run ==> w == (JobView { stage: StageView::Streaming { fed: all }, ..j })
            &&& !j.run.dry_run ==> {
                &&& w.stage matches StageView::Emitting { fed: f, text } && f == all
                    && stream::stream_text(j.op.action, j.matcher, range, all, n)
                    == stream::stream_text(j.op.action, j.matcher, range, fed, n - 1) + text
                &&& process::answered(w, EventView::Done) == (JobView {
                    stage: StageView::Streaming { fed: all },
                    ..j
                })
                &&& w.outcome == j.outcome
            }
        }),
{
    stream::law_stream_grows_by_line(
        j.op.action,
        j.matcher,
        j.options.range_spec(),
        fed,
        raw,
    );
    assert(fed.push(raw).last() == raw);
    assert(fed.push(raw).len() - 1 == fed.len());
}

/// At the end of a stream, a file without changes stays as it is; one with
/// changes is put in place, behind a backup where one is asked for, with a note
/// that it cannot be taken back. All changes are counted, and the first fifty
/// are told.
pub proof fn law_stream_is_put_in_place(j: JobView, fed: Seq<Seq<char>>)
    requires
        j.stage == (StageView::Flushing { fed }) || j.stage == (StageView::Streaming { fed })
            && j.run.dry_run,
    ensures
        ({
            let w = process::answered(
                j,
                if j.stage is Flushing {
                    EventView::Done
                } else {
                    EventView::EndOfInput
                },
            );
            let changes = stream::stream_changes(
                j.op.action,
                j.matcher,
                j.options.range_spec(),
                fed,
                fed.len() as int,
            );
            &&& w.outcome.total == changes.len()
            &&& changes.len() == 0 ==> w.stage is Finished && w.outcome.notes == j.outcome.notes
            &&& changes.len() > 0 ==> {
                &&& w.outcome.notes.len() == j.outcome.notes.len() + 1
                &&& j.run.dry_run ==> w.stage is Finished
                &&& !j.run.dry_run && j.options.backup && !j.run.skip_backup ==> w.stage
                    is SavingOriginal
                &&& !j.run.dry_run && !(j.options.backup && !j.run.skip_backup) ==> w.stage
                    is Persisting
            }
            &&& w.outcome.errors == j.outcome.errors
            &&& w.outcome.modified == j.outcome.modified
            &&& w.outcome.changes.is_prefix_of(changes)
            &&& changes.len() <= 50 ==> w.outcome.changes == changes
            &&& changes.len() > 50 ==> w.outcome.changes.len() == 50
        }),
        j.stage == (StageView::Streaming { fed }) && !j.run.dry_run ==> process::answered(
            j,
            EventView::EndOfInput,
        ) == (JobView { stage: StageView::Flushing { fed }, ..j }),
{
    let changes = stream::stream_changes(
        j.op.action,
        j.matcher,
        j.options.range_spec(),
        fed,
        fed.len() as int,
    );
    assert(changes.take(changes.len() as int) =~= changes);
}

// ---------------------------------------------------------------------------
// One file, with its agreement
// ---------------------------------------------------------------------------

/// What the operation of a run makes of a text, in the range of its options.
pub open spec fn run_makes(c: ConfirmView, text: Seq<char>) -> Result<OutputView, ErrorView> {
    engine::apply_result(
        text,
        c.op,
        c.matcher,
        c.options.range_spec(),
        c.settings.context_lines as int,
    )
}

/// The user is asked about what the operation makes of a file, with the
/// encoding that the file was read in, unless all further changes were agreed
/// to; about nothing where it changes nothing.
pub proof fn law_user_is_asked(c: ConfirmView, bytes: Seq<u8>, now: Seq<char>)
    requires
        c.stage is Reading,
    ensures
        ({
            let w = confirm::answered(c, ConfirmEventView::Bytes(bytes), now);
            let e = encoding::detected(bytes);
            match encoding::decoded(bytes) {
                Err(_) => w.stage is Idle && w.totals.had_errors && w.messages.len()
                    == c.messages.len() + 1,
                Ok(text) => match run_makes(c, text) {
                    Err(_) => w.stage is Idle && w.totals.had_errors && w.messages.len()
                        == c.messages.len() + 1,
                    Ok(out) => {
                        &&& out.changes.len() == 0 ==> w == (ConfirmView {
                            stage: ConfirmStageView::Idle,
                            ..c
                        })
                        &&& out.changes.len() > 0 && !c.apply_all ==> w == (ConfirmView {
                            stage: ConfirmStageView::Asking { output: out, encoding: e },
                            ..c
                        })
                        &&& out.changes.len() > 0 && c.apply_all ==> w == confirm::answered(
                            ConfirmView {
                                stage: ConfirmStageView::Asking { output: out, encoding: e },
                                ..c
                            },
                            ConfirmEventView::Reply(ConfirmAction::Yes),
                            now,
                        )
                    },
                },
            }
        }),
{
}

/// Whether a run sets out to write a text in an encoding, with what takes it
/// back recorded where it is not too large.
pub open spec fn writes(c: ConfirmView, w: ConfirmView, out: OutputView, e: SourceEncoding, now: Seq<char>) -> bool {
    let undo = match out.undo {
        Some(original) => Some((original, e)),
        None => None,
    };
    &&& out.text is Some ==> {
        &&& w.stage matches ConfirmStageView::Writing { bytes } && json_run::are_text(
            bytes,
            out.text->0,
            e,
        )
        &&& kept(c.totals.log, w.totals.log, c.path, undo, c.settings.undo_max_file_bytes, now)
    }
    &&& out.text is None ==> w.stage is Idle && w.totals.log == c.totals.log
}

/// Whether a log has what takes an edit back: the text that a file held, in its
/// encoding, unless it is larger than the cap; then the log stays as it was.
pub open spec fn kept(
    before: Option<LogView>,
    log: Option<LogView>,
    path: Seq<char>,
    undo: Option<(Seq<char>, SourceEncoding)>,
    cap: u64,
    now: Seq<char>,
) -> bool {
    match undo {
        Some((text, e)) => if cap > 0 && vstd::utf8::encode_utf8(text).len() > cap {
            log == before
        } else {
            json_run::has_recorded(before, log, path, Some(text), e, now)
        },
        None => log == before,
    }
}

proof fn lemma_kept(
    log: Option<LogView>,
    path: Seq<char>,
    undo: Option<(Seq<char>, SourceEncoding)>,
    cap: u64,
    now: Seq<char>,
)
    ensures
        kept(log, run::log_after(log, path, undo, cap, now), path, undo, cap, now),
{
    match (log, undo) {
        (Some(b), Some((text, e))) => {
            if !undo::over_cap(text, cap) {
                let record = undo::undo_record(now, path, text, e);
                let l = undo::logged(b, record);
                encoding::law_tag_round_trip(e);
                if b.max_entries > 0 {
                    let all = b.records.push(record);
                    if all.len() > b.max_entries {
                        let d = all.len() - b.max_entries;
                        assert(l.records.last() == record);
                        assert(l.records.drop_last() =~= b.records.skip(d));
                        assert(b.records.skip(b.records.len() - l.records.drop_last().len())
                            =~= l.records.drop_last());
                    } else {
                        assert(l.records.drop_last() =~= b.records);
                        assert(b.records.skip(0) =~= b.records);
                    }
                }
            }
        },
        _ => {},
    }
}

/// What was agreed to is counted, shown where that is asked for, and written in
/// the encoding that the file was read in, behind a backup where one is asked
/// for; a dry run writes nothing. To agree to all further changes is to agree
/// to this one.
pub proof fn law_agreement_is_carried_out(
    c: ConfirmView,
    out: OutputView,
    e: SourceEncoding,
    now: Seq<char>,
)
    requires
        c.stage == (ConfirmStageView::Asking { output: out, encoding: e }),
    ensures
        ({
            let w = confirm::answered(c, ConfirmEventView::Reply(ConfirmAction::Yes), now);
            let all = confirm::answered(c, ConfirmEventView::Reply(ConfirmAction::ApplyAll), now);
            &&& all == (ConfirmView { apply_all: true, ..w })
            &&& w.apply_all == c.apply_all
            &&& w.totals.total_changes == run::capped_sum(
                c.totals.total_changes,
                out.changes.len() as int,
            )
            &&& w.totals.files_modified == c.totals.files_modified
            &&& w.totals.had_errors == c.totals.had_errors
            &&& c.settings.show ==> w.stage == (ConfirmStageView::Showing {
                output: out,
                encoding: e,
            }) && w.totals.log == c.totals.log
            &&& !c.settings.show && c.settings.dry_run ==> w.stage is Idle && w.totals.log
                == c.totals.log
            &&& !c.settings.show && !c.settings.dry_run && c.options.backup ==> w.stage == (
            ConfirmStageView::BackingUp { output: out, encoding: e }) && w.totals.log
                == c.totals.log
            &&& !c.settings.show && !c.settings.dry_run && !c.options.backup ==> writes(
                c,
                w,
                out,
                e,
                now,
            )
        }),
{
    if out.text is Some {
        lemma_encoded_is_text(out.text->0, e);
        let undo = match out.undo {
            Some(original) => Some((original, e)),
            None => None,
        };
        lemma_kept(c.totals.log, c.path, undo, c.settings.undo_max_file_bytes, now);
    }
}

/// What was shown, and what was backed up, is written as it would be at once.
pub proof fn law_agreement_goes_on(
    c: ConfirmView,
    out: OutputView,
    e: SourceEncoding,
    now: Seq<char>,
)
    ensures
        c.stage == (ConfirmStageView::Showing { output: out, encoding: e }) ==> {
            let w = confirm::answered(c, ConfirmEventView::Done, now);
            &&& c.settings.dry_run ==> w == (ConfirmView { stage: ConfirmStageView::Idle, ..c })
            &&& !c.settings.dry_run && c.options.backup ==> w == (ConfirmView {
                stage: ConfirmStageView::BackingUp { output: out, encoding: e },
                ..c
            })
            &&& !c.settings.dry_run && !c.options.backup ==> writes(c, w, out, e, now)
            &&& w.totals.total_changes == c.totals.total_changes
        },
        c.stage == (ConfirmStageView::BackingUp { output: out, encoding: e }) ==> {
            let w = confirm::answered(c, ConfirmEventView::Done, now);
            &&& writes(c, w, out, e, now)
            &&& w.totals.total_changes == c.totals.total_changes
        },
        c.stage is Writing ==> {
            let w = confirm::answered(c, ConfirmEventView::Done, now);
            &&& w.stage is Idle
            &&& w.totals.files_modified == run::capped_sum(c.totals.files_modified, 1)
            &&& w.totals.total_changes == c.totals.total_changes
            &&& w.totals.log == c.totals.log
            &&& w.totals.had_errors == c.totals.had_errors
        },
{
    if out.text is Some {
        lemma_encoded_is_text(out.text->0, e);
        let undo = match out.undo {
            Some(original) => Some((original, e)),
            None => None,
        };
        lemma_kept(c.totals.log, c.path, undo, c.settings.undo_max_file_bytes, now);
    }
}

/// A refusal changes nothing, and to quit ends the run with nothing more done.
pub proof fn law_refusals_change_nothing(c: ConfirmView, now: Seq<char>)
    requires
        c.stage is Asking,
    ensures
        confirm::answered(c, ConfirmEventView::Reply(ConfirmAction::No), now) == (ConfirmView {
            stage: ConfirmStageView::Idle,
            ..c
        }),
        confirm::answered(c, ConfirmEventView::Reply(ConfirmAction::SkipFile), now) == (
        ConfirmView { stage: ConfirmStageView::Idle, ..c }),
        confirm::answered(c, ConfirmEventView::Reply(ConfirmAction::Quit), now) == (ConfirmView {
            stage: ConfirmStageView::Over,
            ..c
        }),
{
}

/// What fails on a file is told, marks the run, and leaves the file as it is.
pub proof fn law_trouble_is_told(c: ConfirmView, e: Seq<char>, now: Seq<char>)
    requires
        c.stage is Locking || c.stage is Reading || c.stage is BackingUp || c.stage is Writing,
    ensures
        ({
            let w = confirm::answered(c, ConfirmEventView::Failed(e), now);
            &&& w.stage is Idle
            &&& w.totals.had_errors
            &&& w.totals.files_modified == c.totals.files_modified
            &&& w.totals.log == c.totals.log
            &&& w.messages.len() == c.messages.len() + 1
            &&& w.messages.drop_last() == c.messages
            &&& matcher::contains(w.messages.last(), c.path)
            &&& matcher::contains(w.messages.last(), e)
        }),
{
    let w = confirm::answered(c, ConfirmEventView::Failed(e), now);
    let m = w.messages.last();
    assert(w.messages.drop_last() =~= c.messages);
    let lead = if c.stage is BackingUp {
        "ripsed: backup failed for "@
    } else if c.stage is Writing {
        "ripsed: write failed for "@
    } else {
        "ripsed: "@
    };
    assert(m == lead + c.path + ": "@ + e);
    lemma_holds_middle(lead, c.path, ": "@ + e);
    assert(lead + c.path + (": "@ + e) =~= m);
    lemma_holds_middle(lead + c.path + ": "@, e, Seq::empty());
    assert(lead + c.path + ": "@ + e + Seq::<char>::empty() =~= m);
}

/// A file is opened under its lock, but for a dry run, and nothing else changes.
pub proof fn law_file_is_opened_under_its_lock(c: ConfirmView, path: Seq<char>, now: Seq<char>)
    ensures
        ({
            let w = confirm::opened(c, path);
            &&& w.path == path
            &&& w.totals == c.totals
            &&& w.apply_all == c.apply_all
            &&& w.messages == c.messages
            &&& w.op == c.op
            &&& w.matcher == c.matcher
            &&& w.options == c.options
            &&& w.settings == c.settings
            &&& c.settings.dry_run ==> w.stage is Reading
            &&& !c.settings.dry_run ==> w.stage is Locking && confirm::answered(
                w,
                ConfirmEventView::Done,
                now,
            ) == (ConfirmView { stage: ConfirmStageView::Reading, ..w })
        }),
{
}

/// The first letters and the words of the replies mean what they say; any other
/// reply is a refusal.
pub proof fn law_replies_are_understood(word: Seq<char>)
    ensures
        confirm::action_of(word) == ConfirmAction::Yes <==> word == "y"@ || word == "yes"@,
        confirm::action_of(word) == ConfirmAction::ApplyAll <==> word == "a"@ || word == "all"@,
        confirm::action_of(word) == ConfirmAction::SkipFile <==> word == "s"@ || word == "skip"@,
        confirm::action_of(word) == ConfirmAction::Quit <==> word == "q"@ || word == "quit"@,
{
    reveal_strlit("y");
    reveal_strlit("yes");
    reveal_strlit("a");
    reveal_strlit("all");
    reveal_strlit("s");
    reveal_strlit("skip");
    reveal_strlit("q");
    reveal_strlit("quit");
    assert("y"@[0] == 'y' && "yes"@[0] == 'y');
    assert("a"@[0] == 'a' && "all"@[0] == 'a');
    assert("s"@[0] == 's' && "skip"@[0] == 's');
    assert("q"@[0] == 'q' && "quit"@[0] == 'q');
}

// ---------------------------------------------------------------------------
// One file, for a program
// ---------------------------------------------------------------------------

/// What an application makes of a text, in its range.
pub open spec fn application_makes(a: ApplyView, text: Seq<char>) -> Result<OutputView, ErrorView> {
    engine::apply_result(
        text,
        a.op,
        matcher::matcher_of(a.op),
        if a.options.line_range is Some {
            Some(RangeView::Lines(a.options.line_range->0))
        } else {
            None
        },
        a.options.context_lines as int,
    )
}

/// A file that was read is written in its encoding where the operation changes
/// it, behind a backup where one is asked for; a dry run ends with what would
/// be done. What comes out is what the operation gives.
pub proof fn law_application_is_carried_out(a: ApplyView, bytes: Seq<u8>)
    requires
        a.stage is Reading,
    ensures
        ({
            let w = apply::answered(a, ApplyEventView::Bytes(bytes));
            let e = encoding::detected(bytes);
            let bad = (a.op.regex || a.op.case_insensitive) && crate::rex::regex_compile_error(
                matcher::compiled_source(a.op),
            ) is Some;
            match encoding::decoded(bytes) {
                Err(_) => ended_in_read_error(w, a.path),
                Ok(text) => if bad {
                    ended_in_engine_error(w)
                } else {
                    match application_makes(a, text) {
                        Err(error) => w.stage == (ApplyStageView::Finished {
                            result: Err::<OutputView, ApplyErrorView>(
                                ApplyErrorView::Engine(error),
                            ),
                        }),
                        Ok(out) => {
                            &&& a.options.dry_run || out.changes.len() == 0 ==> w.stage == (
                            ApplyStageView::Finished {
                                result: Ok::<OutputView, ApplyErrorView>(out),
                            })
                            &&& !a.options.dry_run && out.changes.len() > 0 && a.options.backup
                                ==> w.stage == (ApplyStageView::BackingUp {
                                output: out,
                                encoding: e,
                            })
                            &&& !a.options.dry_run && out.changes.len() > 0 && !a.options.backup
                                && out.text is Some ==> w.stage == (ApplyStageView::Writing {
                                output: out,
                                encoding: e,
                            })
                        },
                    }
                },
            }
        }),
{
}

/// Whether an application ended because its file could not be read as text.
pub open spec fn ended_in_read_error(a: ApplyView, path: Seq<char>) -> bool {
    a.stage matches ApplyStageView::Finished { result: Err(ApplyErrorView::Read(p, _)) } && p
        == path
}

/// Whether an application ended because its operation cannot be carried out.
pub open spec fn ended_in_engine_error(a: ApplyView) -> bool {
    a.stage matches ApplyStageView::Finished { result: Err(ApplyErrorView::Engine(_)) }
}

/// Behind the backup the same is written; what was written is what comes out,
/// and each failure is told with its step, the path and the reason.
pub proof fn law_application_goes_on(a: ApplyView, e: Seq<char>)
    ensures
        a.stage matches ApplyStageView::BackingUp { output, encoding } && output.text is Some
            ==> apply::answered(a, ApplyEventView::Done).stage == (ApplyStageView::Writing {
            output: a.stage->BackingUp_output,
            encoding: a.stage->BackingUp_encoding,
        }),
        a.stage matches ApplyStageView::Writing { output, .. } ==> apply::answered(
            a,
            ApplyEventView::Done,
        ).stage == (ApplyStageView::Finished {
            result: Ok::<OutputView, ApplyErrorView>(output),
        }),
        a.stage is Locking ==> apply::answered(a, ApplyEventView::Done).stage is Reading,
        a.stage is Locking ==> apply::answered(a, ApplyEventView::Failed(e)).stage == (
        ApplyStageView::Finished {
            result: Err::<OutputView, ApplyErrorView>(ApplyErrorView::Lock(a.path, e)),
        }),
        a.stage is Reading ==> apply::answered(a, ApplyEventView::Failed(e)).stage == (
        ApplyStageView::Finished {
            result: Err::<OutputView, ApplyErrorView>(ApplyErrorView::Read(a.path, e)),
        }),
        a.stage is BackingUp ==> apply::answered(a, ApplyEventView::Failed(e)).stage == (
        ApplyStageView::Finished {
            result: Err::<OutputView, ApplyErrorView>(ApplyErrorView::Backup(a.path, e)),
        }),
        a.stage is Writing ==> apply::answered(a, ApplyEventView::Failed(e)).stage == (
        ApplyStageView::Finished {
            result: Err::<OutputView, ApplyErrorView>(ApplyErrorView::Write(a.path, e)),
        }),
{
}

} // verus!
