//! Working on one file: what to do next, given how the last step went.
//!
//! A [`FileJob`] says what it wants done ([`FileJob::action`]) and is told how
//! that went ([`FileJob::answer`]), until it is finished and hands over a
//! [`FileOutcome`]. It does no input or output of its own.
use vstd::prelude::*;

use crate::diff;
use crate::diff::{Change, ChangeView};
use crate::edits::OutputView;
use crate::encoding;
use crate::encoding::{decode, encode, has_utf16_bom, has_utf8_bom, DecodeErrorView, SourceEncoding};
use crate::engine;
use crate::error;
use crate::matcher::{Matcher, MatcherView};
use crate::operation::{Op, OpOptions, OpView, OptionsView};
use crate::stream;
use crate::stream::StreamPass;
use crate::strings;
use crate::strings::owned;
use crate::undo::UndoEntry;

verus! {

/// Everything that work on one file came to.
#[derive(Debug, Clone, PartialEq, Eq)]
pub struct FileOutcome {
    pub path: String,
    /// Changes for display; a streamed file keeps only the first of them.
    pub changes: Vec<Change>,
    /// How many lines were changed, all of them counted.
    pub total_line_changes: usize,
    pub undo: Option<(UndoEntry, SourceEncoding)>,
    pub modified: bool,
    pub errors: Vec<String>,
    /// Remarks that are no errors.
    pub notes: Vec<String>,
}

/// The view of what can be undone: the text before, and how it was encoded.
pub open spec fn undo_view(undo: Option<(UndoEntry, SourceEncoding)>) -> Option<
    (Seq<char>, SourceEncoding),
> {
    match undo {
        Some((entry, e)) => Some((entry.original_text@, e)),
        None => None,
    }
}

/// What a [`FileOutcome`] says.
#[verifier::ext_equal]
pub struct OutcomeView {
    pub path: Seq<char>,
    pub changes: Seq<ChangeView>,
    pub total: int,
    pub undo: Option<(Seq<char>, SourceEncoding)>,
    pub modified: bool,
    pub errors: Seq<Seq<char>>,
    pub notes: Seq<Seq<char>>,
}

impl View for FileOutcome {
    type V = OutcomeView;

    open spec fn view(&self) -> OutcomeView {
        OutcomeView {
            path: self.path@,
            changes: diff::changes_view(self.changes@),
            total: self.total_line_changes as int,
            undo: undo_view(self.undo),
            modified: self.modified,
            errors: strings::strings_view(self.errors@),
            notes: strings::strings_view(self.notes@),
        }
    }
}

/// The outcome before anything was done.
pub open spec fn untouched(path: Seq<char>) -> OutcomeView {
    OutcomeView {
        path,
        changes: Seq::empty(),
        total: 0,
        undo: None,
        modified: false,
        errors: Seq::empty(),
        notes: Seq::empty(),
    }
}

/// What holds for a whole run.
#[derive(Debug, Clone, Copy, PartialEq, Eq, Structural)]
pub struct ProcessOptions {
    pub dry_run: bool,
    pub skip_backup: bool,
    pub context_lines: usize,
    pub undo_max_file_bytes: u64,
    pub stream_min_bytes: u64,
}

/// Whether a file of a size can be streamed: streaming is on, the file is
/// large enough, the operation works by line, and the text before is not kept
/// for an undo anyway.
pub open spec fn can_stream(
    size: u64,
    op: OpView,
    record_undo: bool,
    undo_max_file_bytes: u64,
    stream_min_bytes: u64,
) -> bool {
    &&& stream_min_bytes != 0
    &&& size >= stream_min_bytes
    &&& !op.multiline()
    &&& !record_undo || (undo_max_file_bytes > 0 && size > undo_max_file_bytes)
}

/// Whether a file of a size can be streamed.
pub fn stream_eligible(
    file_size: u64,
    op: &Op,
    options: &OpOptions,
    undo_max_file_bytes: u64,
    stream_min_bytes: u64,
) -> (b: bool)
    ensures
        b == can_stream(
            file_size,
            op@,
            options@.record_undo,
            undo_max_file_bytes,
            stream_min_bytes,
        ),
{
    if stream_min_bytes == 0 || file_size < stream_min_bytes || op.is_multiline() {
        return false;
    }
    !options.record_undo || (undo_max_file_bytes > 0 && file_size > undo_max_file_bytes)
}

/// Whether a file starts with a byte-order mark; such files are decoded as a
/// whole.
pub open spec fn starts_with_bom(prefix: Seq<u8>) -> bool {
    encoding::has_bom(prefix, SourceEncoding::Utf8Bom) || encoding::has_bom(
        prefix,
        SourceEncoding::Utf16Le,
    ) || encoding::has_bom(prefix, SourceEncoding::Utf16Be)
}

/// Whether a file that starts with these bytes has a byte-order mark.
pub fn file_has_bom(prefix: &[u8]) -> (b: bool)
    ensures
        b == starts_with_bom(prefix@),
{
    has_utf8_bom(prefix) || has_utf16_bom(prefix)
}

// ---------------------------------------------------------------------------
// Messages
// ---------------------------------------------------------------------------

/// What is said of a file that could not be worked on.
pub open spec fn file_error(path: Seq<char>, detail: Seq<char>) -> Seq<char> {
    "ripsed: "@ + path + ": "@ + detail
}

/// What is said of a backup that failed.
pub open spec fn backup_error(path: Seq<char>, detail: Seq<char>) -> Seq<char> {
    "ripsed: backup failed for "@ + path + ": "@ + detail
}

/// What is said of a write that failed.
pub open spec fn write_error(path: Seq<char>, detail: Seq<char>) -> Seq<char> {
    "ripsed: write failed for "@ + path + ": "@ + detail
}

/// What is said of a file that was streamed, so that it cannot be undone.
pub open spec fn streamed_note(path: Seq<char>) -> Seq<char> {
    "ripsed: undo skipped for "@ + path + ": streamed large file (see undo.max_file_bytes)"@
}

/// Writes a message on a file.
pub fn message(lead: &str, path: &str, detail: &str) -> (r: String)
    ensures
        r@ == lead@ + path@ + ": "@ + detail@,
{
    let mut m = owned(lead);
    m.append(path);
    m.append(": ");
    m.append(detail);
    m
}

/// What is said of bytes that do not decode.
pub open spec fn decode_message(e: DecodeErrorView) -> Seq<char> {
    match e {
        DecodeErrorView::InvalidUtf8(detail) => detail,
        DecodeErrorView::TruncatedUtf16 => "truncated UTF-16: odd number of payload bytes"@,
        DecodeErrorView::InvalidUtf16 => "invalid utf-16: lone surrogate found"@,
    }
}

/// What a user is shown of an error.
pub open spec fn error_display(e: error::ErrorView) -> Seq<char> {
    e.message + "\n  hint: "@ + e.hint
}

// ---------------------------------------------------------------------------
// Jobs
// ---------------------------------------------------------------------------

/// What a job wants done.
#[derive(Debug, Clone, PartialEq, Eq)]
pub enum FileAction {
    /// Take the lock of the file.
    Lock,
    /// Look up the size of the file.
    Size,
    /// Read the first three bytes of the file.
    Prefix,
    /// Read the whole file.
    Read,
    /// Make a backup of the file.
    Backup,
    /// Put these bytes in place of the file, at once.
    Write(Vec<u8>),
    /// Open the file for reading by line, with a temporary file beside it to
    /// write to where this says so.
    OpenStream { temporary: bool },
    /// Read the next line, with its terminator.
    ReadLine,
    /// Write this to the temporary file.
    Emit(String),
    /// Flush the temporary file, and close the file that was read.
    Flush,
    /// Put the temporary file in place of the file.
    Persist,
    /// Nothing more.
    Finish,
}

/// How it went.
#[derive(Debug, Clone, PartialEq, Eq)]
pub enum FileEvent {
    Done,
    Size(u64),
    Bytes(Vec<u8>),
    Line(String),
    EndOfInput,
    /// It failed, for this reason.
    Failed(String),
}

/// What a [`FileEvent`] says.
#[verifier::ext_equal]
pub enum EventView {
    Done,
    Size(u64),
    Bytes(Seq<u8>),
    Line(Seq<char>),
    EndOfInput,
    Failed(Seq<char>),
}

impl View for FileEvent {
    type V = EventView;

    open spec fn view(&self) -> EventView {
        match self {
            FileEvent::Done => EventView::Done,
            FileEvent::Size(n) => EventView::Size(*n),
            FileEvent::Bytes(b) => EventView::Bytes(b@),
            FileEvent::Line(s) => EventView::Line(s@),
            FileEvent::EndOfInput => EventView::EndOfInput,
            FileEvent::Failed(e) => EventView::Failed(e@),
        }
    }
}

/// Where a job stands: what it is waiting for.
enum Stage<'a> {
    Locking,
    Sizing,
    Probing,
    Reading,
    BackingUp { bytes: Vec<u8>, undo: Option<(UndoEntry, SourceEncoding)> },
    Writing { bytes: Vec<u8>, undo: Option<(UndoEntry, SourceEncoding)> },
    Opening { pass: StreamPass<'a> },
    Streaming { pass: StreamPass<'a> },
    Emitting { pass: StreamPass<'a>, text: String },
    Flushing { pass: StreamPass<'a> },
    SavingOriginal,
    Persisting,
    Finished,
}

/// Where a job stands.
#[verifier::ext_equal]
pub enum StageView {
    /// Waiting for the lock.
    Locking,
    /// Waiting for the size.
    Sizing,
    /// Waiting for the first bytes.
    Probing,
    /// Waiting for the whole file.
    Reading,
    /// Waiting for the backup, with these bytes to write behind it.
    BackingUp { bytes: Seq<u8>, undo: Option<(Seq<char>, SourceEncoding)> },
    /// Waiting for these bytes to be written.
    Writing { bytes: Seq<u8>, undo: Option<(Seq<char>, SourceEncoding)> },
    /// Waiting for the stream to open.
    Opening,
    /// Waiting for a line, behind these.
    Streaming { fed: Seq<Seq<char>> },
    /// Waiting for this text to be written, behind these lines.
    Emitting { fed: Seq<Seq<char>>, text: Seq<char> },
    /// Waiting for the end of the stream to be written.
    Flushing { fed: Seq<Seq<char>> },
    /// Waiting for the backup of a streamed file.
    SavingOriginal,
    /// Waiting for the streamed file to be put in place.
    Persisting,
    /// Done.
    Finished,
}

impl<'a> Stage<'a> {
    spec fn shown(self) -> StageView {
        match self {
            Stage::Locking => StageView::Locking,
            Stage::Sizing => StageView::Sizing,
            Stage::Probing => StageView::Probing,
            Stage::Reading => StageView::Reading,
            Stage::BackingUp { bytes, undo } => StageView::BackingUp {
                bytes: bytes@,
                undo: undo_view(undo),
            },
            Stage::Writing { bytes, undo } => StageView::Writing {
                bytes: bytes@,
                undo: undo_view(undo),
            },
            Stage::Opening { pass } => StageView::Opening,
            Stage::Streaming { pass } => StageView::Streaming { fed: pass.fed() },
            Stage::Emitting { pass, text } => StageView::Emitting { fed: pass.fed(), text: text@ },
            Stage::Flushing { pass } => StageView::Flushing { fed: pass.fed() },
            Stage::SavingOriginal => StageView::SavingOriginal,
            Stage::Persisting => StageView::Persisting,
            Stage::Finished => StageView::Finished,
        }
    }

    spec fn pass(self) -> Option<StreamPass<'a>> {
        match self {
            Stage::Opening { pass } => Some(pass),
            Stage::Streaming { pass } => Some(pass),
            Stage::Emitting { pass, .. } => Some(pass),
            Stage::Flushing { pass } => Some(pass),
            _ => None,
        }
    }
}

/// Work on one file.
pub struct FileJob<'a> {
    op: &'a Op,
    matcher: &'a Matcher,
    options: &'a OpOptions,
    run: ProcessOptions,
    outcome: FileOutcome,
    stage: Stage<'a>,
}

/// What a [`FileJob`] is about, and where it stands.
#[verifier::ext_equal]
pub struct JobView {
    pub op: OpView,
    pub matcher: MatcherView,
    pub options: OptionsView,
    pub run: ProcessOptions,
    pub outcome: OutcomeView,
    pub stage: StageView,
}

/// A job in another stage.
pub open spec fn at_stage(j: JobView, stage: StageView) -> JobView {
    JobView { stage, ..j }
}

/// A job that ends with an error.
pub open spec fn failed(j: JobView, message: Seq<char>) -> JobView {
    JobView {
        outcome: OutcomeView { errors: j.outcome.errors.push(message), ..j.outcome },
        stage: StageView::Finished,
        ..j
    }
}

/// A job before its first step: it takes the lock unless it is a dry run.
pub open spec fn job_start(
    op: OpView,
    matcher: MatcherView,
    options: OptionsView,
    run: ProcessOptions,
    path: Seq<char>,
) -> JobView {
    JobView {
        op,
        matcher,
        options,
        run,
        outcome: untouched(path),
        stage: if run.dry_run {
            StageView::Sizing
        } else {
            StageView::Locking
        },
    }
}

/// Whether a backup is made before a file is written.
pub open spec fn wants_backup(j: JobView) -> bool {
    j.options.backup && !j.run.skip_backup
}

/// A job that knows the size of its file.
pub open spec fn sized(j: JobView, size: u64) -> JobView {
    if can_stream(
        size,
        j.op,
        j.options.record_undo,
        j.run.undo_max_file_bytes,
        j.run.stream_min_bytes,
    ) {
        at_stage(j, StageView::Probing)
    } else {
        at_stage(j, StageView::Reading)
    }
}

/// A job that knows whether its file starts with a byte-order mark; where that
/// cannot be told, it counts as one.
pub open spec fn probed(j: JobView, bom: bool) -> JobView {
    if bom {
        at_stage(j, StageView::Reading)
    } else {
        match engine::stream_error(j.op, j.options.range_spec()) {
            Some(e) => failed(j, file_error(j.outcome.path, error_display(e))),
            None => at_stage(j, StageView::Opening),
        }
    }
}

/// A job that knows what its operation makes of the file.
pub open spec fn applied(j: JobView, out: OutputView, e: SourceEncoding) -> JobView {
    if out.changes.len() == 0 {
        at_stage(j, StageView::Finished)
    } else {
        let counted = JobView {
            outcome: OutcomeView {
                changes: out.changes,
                total: out.changes.len() as int,
                ..j.outcome
            },
            ..j
        };
        if j.run.dry_run || out.text is None {
            at_stage(counted, StageView::Finished)
        } else {
            let bytes = encoding::encoded(out.text->0, e);
            let undo = match out.undo {
                Some(original) => Some((original, e)),
                None => None,
            };
            if wants_backup(j) {
                at_stage(counted, StageView::BackingUp { bytes, undo })
            } else {
                at_stage(counted, StageView::Writing { bytes, undo })
            }
        }
    }
}

/// A job that has its file in memory.
pub open spec fn read(j: JobView, bytes: Seq<u8>) -> JobView {
    match encoding::decoded(bytes) {
        Err(e) => failed(j, file_error(j.outcome.path, decode_message(e))),
        Ok(text) => match engine::apply_result(
            text,
            j.op,
            j.matcher,
            j.options.range_spec(),
            j.run.context_lines as int,
        ) {
            Err(e) => failed(j, file_error(j.outcome.path, error_display(e))),
            Ok(out) => applied(j, out, encoding::detected(bytes)),
        },
    }
}

/// The changes in lines that were fed to the stream of a job.
pub open spec fn changes_fed(j: JobView, fed: Seq<Seq<char>>) -> Seq<ChangeView> {
    stream::stream_changes(
        j.op.action,
        j.matcher,
        j.options.range_spec(),
        fed,
        fed.len() as int,
    )
}

/// A job whose outcome counts what was streamed.
pub open spec fn counted(j: JobView, fed: Seq<Seq<char>>) -> JobView {
    JobView {
        outcome: OutcomeView {
            changes: stream::collected(changes_fed(j, fed)),
            total: changes_fed(j, fed).len() as int,
            ..j.outcome
        },
        ..j
    }
}

/// What is written in place of the last of the lines that were fed.
pub open spec fn last_text(j: JobView, fed: Seq<Seq<char>>) -> Seq<char> {
    stream::terminated(
        crate::edits::emitted(
            stream::stream_edits(j.op.action, j.matcher, j.options.range_spec(), fed)[fed.len() - 1],
            stream::line_content(fed.last()),
        ),
        stream::terminator_of(fed.last()),
    )
}

/// A job that has read another line of its stream. A dry run writes nothing.
pub open spec fn line_read(j: JobView, fed: Seq<Seq<char>>) -> JobView {
    if j.run.dry_run {
        at_stage(j, StageView::Streaming { fed })
    } else {
        at_stage(j, StageView::Emitting { fed, text: last_text(j, fed) })
    }
}

/// A job that has written its stream: where anything changed, the file is
/// backed up if asked for, and replaced.
pub open spec fn streamed(j: JobView, fed: Seq<Seq<char>>) -> JobView {
    let c = counted(j, fed);
    if changes_fed(j, fed).len() == 0 {
        at_stage(c, StageView::Finished)
    } else {
        let noted = JobView {
            outcome: OutcomeView {
                notes: c.outcome.notes.push(streamed_note(j.outcome.path)),
                ..c.outcome
            },
            ..c
        };
        if j.run.dry_run {
            at_stage(noted, StageView::Finished)
        } else if wants_backup(j) {
            at_stage(noted, StageView::SavingOriginal)
        } else {
            at_stage(noted, StageView::Persisting)
        }
    }
}

/// A job whose file was written.
pub open spec fn written(j: JobView, undo: Option<(Seq<char>, SourceEncoding)>) -> JobView {
    JobView {
        outcome: OutcomeView { modified: true, undo, ..j.outcome },
        stage: StageView::Finished,
        ..j
    }
}

/// What becomes of a job that is told how its last step went. An answer that
/// does not fit what the job waits for changes nothing.
pub open spec fn answered(j: JobView, event: EventView) -> JobView {
    let path = j.outcome.path;
    match (j.stage, event) {
        (StageView::Locking, EventView::Done) => at_stage(j, StageView::Sizing),
        (StageView::Locking, EventView::Failed(e)) => failed(j, file_error(path, e)),
        (StageView::Sizing, EventView::Size(n)) => sized(j, n),
        (StageView::Sizing, EventView::Failed(_)) => sized(j, 0),
        (StageView::Probing, EventView::Bytes(b)) => probed(j, starts_with_bom(b)),
        (StageView::Probing, EventView::Failed(_)) => probed(j, true),
        (StageView::Reading, EventView::Bytes(b)) => read(j, b),
        (StageView::Reading, EventView::Failed(e)) => failed(j, file_error(path, e)),
        (StageView::BackingUp { bytes, undo }, EventView::Done) => at_stage(
            j,
            StageView::Writing { bytes, undo },
        ),
        (StageView::BackingUp { .. }, EventView::Failed(e)) => failed(j, backup_error(path, e)),
        (StageView::Writing { undo, .. }, EventView::Done) => written(j, undo),
        (StageView::Writing { .. }, EventView::Failed(e)) => failed(j, write_error(path, e)),
        (StageView::Opening, EventView::Done) => at_stage(
            j,
            StageView::Streaming { fed: Seq::empty() },
        ),
        (StageView::Opening, EventView::Failed(e)) => failed(j, file_error(path, e)),
        (StageView::Streaming { fed }, EventView::Line(s)) => line_read(j, fed.push(s)),
        (StageView::Streaming { fed }, EventView::EndOfInput) => if j.run.dry_run {
            streamed(j, fed)
        } else {
            at_stage(j, StageView::Flushing { fed })
        },
        (StageView::Streaming { fed }, EventView::Failed(e)) => failed(
            counted(j, fed),
            file_error(path, e),
        ),
        (StageView::Emitting { fed, .. }, EventView::Done) => at_stage(
            j,
            StageView::Streaming { fed },
        ),
        (StageView::Emitting { fed, .. }, EventView::Failed(e)) => failed(
            counted(j, fed),
            write_error(path, e),
        ),
        (StageView::Flushing { fed }, EventView::Done) => streamed(j, fed),
        (StageView::Flushing { fed }, EventView::Failed(e)) => failed(
            counted(j, fed),
            write_error(path, e),
        ),
        (StageView::SavingOriginal, EventView::Done) => at_stage(j, StageView::Persisting),
        (StageView::SavingOriginal, EventView::Failed(e)) => failed(j, backup_error(path, e)),
        (StageView::Persisting, EventView::Done) => written(j, None),
        (StageView::Persisting, EventView::Failed(e)) => failed(j, write_error(path, e)),
        _ => j,
    }
}

impl<'a> View for FileJob<'a> {
    type V = JobView;

    closed spec fn view(&self) -> JobView {
        JobView {
            op: self.op@,
            matcher: self.matcher@,
            options: self.options@,
            run: self.run,
            outcome: self.outcome@,
            stage: self.stage.shown(),
        }
    }
}

impl<'a> FileJob<'a> {
    #[verifier::type_invariant]
    spec fn valid(self) -> bool {
        &&& self.stage.pass() matches Some(pass) ==> {
            &&& pass.op() == self.op@
            &&& pass.matcher() == self.matcher@
            &&& pass.range() == self.options@.range_spec()
        }
        &&& self.stage matches Stage::Opening { pass } ==> pass.fed() == Seq::<Seq<char>>::empty()
    }

    /// A job before its first step.
    pub fn new(
        op: &'a Op,
        matcher: &'a Matcher,
        options: &'a OpOptions,
        run: ProcessOptions,
        path: &str,
    ) -> (j: FileJob<'a>)
        ensures
            j@ == job_start(op@, matcher@, options@, run, path@),
    {
        let changes: Vec<Change> = Vec::new();
        let errors: Vec<String> = Vec::new();
        let notes: Vec<String> = Vec::new();
        proof {
            assert(diff::changes_view(changes@) =~= Seq::<ChangeView>::empty());
            assert(strings::strings_view(errors@) =~= Seq::<Seq<char>>::empty());
            assert(strings::strings_view(notes@) =~= Seq::<Seq<char>>::empty());
        }
        FileJob {
            op,
            matcher,
            options,
            run,
            outcome: FileOutcome {
                path: owned(path),
                changes,
                total_line_changes: 0,
                undo: None,
                modified: false,
                errors,
                notes,
            },
            stage: if run.dry_run {
                Stage::Sizing
            } else {
                Stage::Locking
            },
        }
    }

    /// What the job wants done.
    pub fn action(&self) -> (a: FileAction)
        ensures
            match self@.stage {
                StageView::Locking => a is Lock,
                StageView::Sizing => a is Size,
                StageView::Probing => a is Prefix,
                StageView::Reading => a is Read,
                StageView::BackingUp { .. } => a is Backup,
                StageView::Writing { bytes, .. } => a matches FileAction::Write(b) && b@ == bytes,
                StageView::Opening => a == (FileAction::OpenStream {
                    temporary: !self@.run.dry_run,
                }),
                StageView::Streaming { .. } => a is ReadLine,
                StageView::Emitting { text, .. } => a matches FileAction::Emit(s) && s@ == text,
                StageView::Flushing { .. } => a is Flush,
                StageView::SavingOriginal => a is Backup,
                StageView::Persisting => a is Persist,
                StageView::Finished => a is Finish,
            },
    {
        match &self.stage {
            Stage::Locking => FileAction::Lock,
            Stage::Sizing => FileAction::Size,
            Stage::Probing => FileAction::Prefix,
            Stage::Reading => FileAction::Read,
            Stage::BackingUp { .. } => FileAction::Backup,
            Stage::Writing { bytes, .. } => FileAction::Write(
                vstd::slice::slice_to_vec(bytes.as_slice()),
            ),
            Stage::Opening { .. } => FileAction::OpenStream { temporary: !self.run.dry_run },
            Stage::Streaming { .. } => FileAction::ReadLine,
            Stage::Emitting { text, .. } => FileAction::Emit(text.clone()),
            Stage::Flushing { .. } => FileAction::Flush,
            Stage::SavingOriginal => FileAction::Backup,
            Stage::Persisting => FileAction::Persist,
            Stage::Finished => FileAction::Finish,
        }
    }

    /// How many lines of the file have been streamed.
    pub fn lines_streamed(&self) -> (n: usize)
        ensures
            n == match self@.stage {
                StageView::Streaming { fed } => fed.len(),
                StageView::Emitting { fed, .. } => fed.len(),
                StageView::Flushing { fed } => fed.len(),
                _ => 0,
            },
    {
        match &self.stage {
            Stage::Streaming { pass } => pass.line_count(),
            Stage::Emitting { pass, .. } => pass.line_count(),
            Stage::Flushing { pass } => pass.line_count(),
            _ => 0,
        }
    }

    /// What the work came to so far.
    pub fn into_outcome(self) -> (o: FileOutcome)
        ensures
            o@ == self@.outcome,
    {
        self.outcome
    }

    /// The job in another stage.
    fn moved(self, stage: Stage<'a>) -> (j: FileJob<'a>)
        requires
            stage.pass() matches Some(pass) ==> pass.op() == self@.op && pass.matcher()
                == self@.matcher && pass.range() == self@.options.range_spec(),
            stage matches Stage::Opening { pass } ==> pass.fed() == Seq::<Seq<char>>::empty(),
        ensures
            j@ == at_stage(self@, stage.shown()),
    {
        FileJob {
            op: self.op,
            matcher: self.matcher,
            options: self.options,
            run: self.run,
            outcome: self.outcome,
            stage,
        }
    }

    /// The job, ended by an error.
    fn fail(self, lead: &str, detail: &str) -> (j: FileJob<'a>)
        ensures
            j@ == failed(self@, lead@ + self@.outcome.path + ": "@ + detail@),
    {
        let text = message(lead, self.outcome.path.as_str(), detail);
        let mut outcome = self.outcome;
        let ghost before = outcome.errors@;
        outcome.errors.push(text);
        proof {
            assert(strings::strings_view(outcome.errors@) =~= strings::strings_view(before).push(
                text@,
            ));
        }
        FileJob {
            op: self.op,
            matcher: self.matcher,
            options: self.options,
            run: self.run,
            outcome,
            stage: Stage::Finished,
        }
    }

    /// The job, its file written.
    fn complete(self, undo: Option<(UndoEntry, SourceEncoding)>) -> (j: FileJob<'a>)
        ensures
            j@ == written(self@, undo_view(undo)),
    {
        let mut outcome = self.outcome;
        outcome.modified = true;
        outcome.undo = undo;
        FileJob {
            op: self.op,
            matcher: self.matcher,
            options: self.options,
            run: self.run,
            outcome,
            stage: Stage::Finished,
        }
    }

    /// The job, with what it streamed in its outcome.
    fn count(self, pass: StreamPass<'a>) -> (j: FileJob<'a>)
        requires
            pass.op() == self@.op,
            pass.matcher() == self@.matcher,
            pass.range() == self@.options.range_spec(),
        ensures
            j@ == at_stage(counted(self@, pass.fed()), StageView::Finished),
    {
        let mut outcome = self.outcome;
        outcome.total_line_changes = pass.total_changes();
        outcome.changes = pass.into_changes();
        FileJob {
            op: self.op,
            matcher: self.matcher,
            options: self.options,
            run: self.run,
            outcome,
            stage: Stage::Finished,
        }
    }

    fn size_known(self, size: u64) -> (j: FileJob<'a>)
        ensures
            j@ == sized(self@, size),
    {
        let streams = stream_eligible(
            size,
            self.op,
            self.options,
            self.run.undo_max_file_bytes,
            self.run.stream_min_bytes,
        );
        if streams {
            self.moved(Stage::Probing)
        } else {
            self.moved(Stage::Reading)
        }
    }

    fn start_known(self, bom: bool) -> (j: FileJob<'a>)
        ensures
            j@ == probed(self@, bom),
    {
        if bom {
            return self.moved(Stage::Reading);
        }
        match StreamPass::new(self.op, self.matcher, self.options.range_spec()) {
            Ok(pass) => self.moved(Stage::Opening { pass }),
            Err(e) => self.fail("ripsed: ", e.display().as_str()),
        }
    }

    fn bytes_known(self, bytes: Vec<u8>) -> (j: FileJob<'a>)
        ensures
            j@ == read(self@, bytes@),
    {
        let (text, encoding) = match decode(bytes) {
            Ok(r) => r,
            Err(e) => {
                return self.fail("ripsed: ", e.message().as_str());
            },
        };
        let output = match engine::apply(
            text.as_str(),
            self.op,
            self.matcher,
            self.options.range_spec(),
            self.run.context_lines,
        ) {
            Ok(o) => o,
            Err(e) => {
                return self.fail("ripsed: ", e.display().as_str());
            },
        };
        let ghost out = output@;
        if output.changes.len() == 0 {
            return self.moved(Stage::Finished);
        }
        let mut outcome = self.outcome;
        outcome.total_line_changes = output.changes.len();
        outcome.changes = output.changes;
        let undo = match output.undo {
            Some(entry) => Some((entry, encoding)),
            None => None,
        };
        let stage = match output.text {
            Some(text) => {
                if self.run.dry_run {
                    Stage::Finished
                } else {
                    let bytes = encode(text.as_str(), encoding);
                    if self.options.backup && !self.run.skip_backup {
                        Stage::BackingUp { bytes, undo }
                    } else {
                        Stage::Writing { bytes, undo }
                    }
                }
            },
            None => Stage::Finished,
        };
        FileJob {
            op: self.op,
            matcher: self.matcher,
            options: self.options,
            run: self.run,
            outcome,
            stage,
        }
    }

    fn line_known(self, pass: StreamPass<'a>, line: &str) -> (j: FileJob<'a>)
        requires
            pass.op() == self@.op,
            pass.matcher() == self@.matcher,
            pass.range() == self@.options.range_spec(),
            pass.fed().len() < usize::MAX,
        ensures
            j@ == line_read(self@, pass.fed().push(line@)),
    {
        let ghost fed = pass.fed().push(line@);
        let (pass, text) = pass.feed(line);
        proof {
            assert(fed.last() == line@);
        }
        if self.run.dry_run {
            self.moved(Stage::Streaming { pass })
        } else {
            self.moved(Stage::Emitting { pass, text })
        }
    }

    fn stream_written(self, pass: StreamPass<'a>) -> (j: FileJob<'a>)
        requires
            pass.op() == self@.op,
            pass.matcher() == self@.matcher,
            pass.range() == self@.options.range_spec(),
        ensures
            j@ == streamed(self@, pass.fed()),
    {
        let nothing = pass.total_changes() == 0;
        let backup = self.options.backup && !self.run.skip_backup;
        let dry_run = self.run.dry_run;
        let job = self.count(pass);
        if nothing {
            return job;
        }
        let mut note = owned("ripsed: undo skipped for ");
        note.append(job.outcome.path.as_str());
        note.append(": streamed large file (see undo.max_file_bytes)");
        let mut outcome = job.outcome;
        let ghost before = outcome.notes@;
        outcome.notes.push(note);
        proof {
            assert(strings::strings_view(outcome.notes@) =~= strings::strings_view(before).push(
                note@,
            ));
        }
        FileJob {
            op: job.op,
            matcher: job.matcher,
            options: job.options,
            run: job.run,
            outcome,
            stage: if dry_run {
                Stage::Finished
            } else if backup {
                Stage::SavingOriginal
            } else {
                Stage::Persisting
            },
        }
    }

    /// Tells the job how its last step went.
    pub fn answer(self, event: FileEvent) -> (j: FileJob<'a>)
        requires
            self@.stage matches StageView::Streaming { fed } ==> fed.len() < usize::MAX,
        ensures
            j@ == answered(self@, event@),
    {
        proof {
            use_type_invariant(&self);
        }
        let ghost was = self@;
        let FileJob { op, matcher, options, run, outcome, stage } = self;
        let job = FileJob { op, matcher, options, run, outcome, stage: Stage::Finished };
        proof {
            assert(job@ == at_stage(was, StageView::Finished));
        }
        match stage {
            Stage::Locking => match event {
                FileEvent::Done => job.moved(Stage::Sizing),
                FileEvent::Failed(e) => job.fail("ripsed: ", e.as_str()),
                _ => job.moved(Stage::Locking),
            },
            Stage::Sizing => match event {
                FileEvent::Size(n) => job.size_known(n),
                FileEvent::Failed(_) => job.size_known(0),
                _ => job.moved(Stage::Sizing),
            },
            Stage::Probing => match event {
                FileEvent::Bytes(b) => job.start_known(file_has_bom(b.as_slice())),
                FileEvent::Failed(_) => job.start_known(true),
                _ => job.moved(Stage::Probing),
            },
            Stage::Reading => match event {
                FileEvent::Bytes(b) => job.bytes_known(b),
                FileEvent::Failed(e) => job.fail("ripsed: ", e.as_str()),
                _ => job.moved(Stage::Reading),
            },
            Stage::BackingUp { bytes, undo } => match event {
                FileEvent::Done => job.moved(Stage::Writing { bytes, undo }),
                FileEvent::Failed(e) => job.fail("ripsed: backup failed for ", e.as_str()),
                _ => job.moved(Stage::BackingUp { bytes, undo }),
            },
            Stage::Writing { bytes, undo } => match event {
                FileEvent::Done => job.complete(undo),
                FileEvent::Failed(e) => job.fail("ripsed: write failed for ", e.as_str()),
                _ => job.moved(Stage::Writing { bytes, undo }),
            },
            Stage::Opening { pass } => match event {
                FileEvent::Done => job.moved(Stage::Streaming { pass }),
                FileEvent::Failed(e) => job.fail("ripsed: ", e.as_str()),
                _ => job.moved(Stage::Opening { pass }),
            },
            Stage::Streaming { pass } => match event {
                FileEvent::Line(s) => job.line_known(pass, s.as_str()),
                FileEvent::EndOfInput => if job.run.dry_run {
                    job.stream_written(pass)
                } else {
                    job.moved(Stage::Flushing { pass })
                },
                FileEvent::Failed(e) => job.count(pass).fail("ripsed: ", e.as_str()),
                _ => job.moved(Stage::Streaming { pass }),
            },
            Stage::Emitting { pass, text } => match event {
                FileEvent::Done => job.moved(Stage::Streaming { pass }),
                FileEvent::Failed(e) => job.count(pass).fail(
                    "ripsed: write failed for ",
                    e.as_str(),
                ),
                _ => job.moved(Stage::Emitting { pass, text }),
            },
            Stage::Flushing { pass } => match event {
                FileEvent::Done => job.stream_written(pass),
                FileEvent::Failed(e) => job.count(pass).fail(
                    "ripsed: write failed for ",
                    e.as_str(),
                ),
                _ => job.moved(Stage::Flushing { pass }),
            },
            Stage::SavingOriginal => match event {
                FileEvent::Done => job.moved(Stage::Persisting),
                FileEvent::Failed(e) => job.fail("ripsed: backup failed for ", e.as_str()),
                _ => job.moved(Stage::SavingOriginal),
            },
            Stage::Persisting => match event {
                FileEvent::Done => job.complete(None),
                FileEvent::Failed(e) => job.fail("ripsed: write failed for ", e.as_str()),
                _ => job.moved(Stage::Persisting),
            },
            Stage::Finished => job,
        }
    }
}

// ---------------------------------------------------------------------------
// Laws
// ---------------------------------------------------------------------------

/// A job told, one after the other, how its first `n` steps went.
pub open spec fn job_after(j: JobView, events: Seq<EventView>, n: int) -> JobView
    decreases n,
{
    if n <= 0 {
        j
    } else {
        answered(job_after(j, events, n - 1), events[n - 1])
    }
}

/// Whether a stage touches the disk other than by reading.
pub open spec fn is_touching(stage: StageView) -> bool {
    stage is Locking || stage is BackingUp || stage is Writing || stage is Emitting
        || stage is Flushing || stage is SavingOriginal || stage is Persisting
}

/// What a job is about never changes.
proof fn lemma_job_is_about(j: JobView, events: Seq<EventView>, n: int)
    ensures
        job_after(j, events, n).op == j.op,
        job_after(j, events, n).matcher == j.matcher,
        job_after(j, events, n).options == j.options,
        job_after(j, events, n).run == j.run,
        job_after(j, events, n).outcome.path == j.outcome.path,
    decreases n,
{
    if n > 0 {
        lemma_job_is_about(j, events, n - 1);
    }
}

/// A dry run takes no lock, makes no backup and writes nothing, and its
/// outcome says that nothing was modified.
pub proof fn law_dry_run_touches_nothing(
    op: OpView,
    matcher: MatcherView,
    options: OptionsView,
    run: ProcessOptions,
    path: Seq<char>,
    events: Seq<EventView>,
    n: int,
)
    requires
        run.dry_run,
        0 <= n <= events.len(),
    ensures
        !is_touching(job_after(job_start(op, matcher, options, run, path), events, n).stage),
        !job_after(job_start(op, matcher, options, run, path), events, n).outcome.modified,
        job_after(job_start(op, matcher, options, run, path), events, n).outcome.undo is None,
    decreases n,
{
    let j = job_start(op, matcher, options, run, path);
    if n > 0 {
        law_dry_run_touches_nothing(op, matcher, options, run, path, events, n - 1);
        lemma_job_is_about(j, events, n - 1);
    }
}

/// Where a backup is asked for, a file is written only behind a backup that
/// was made.
pub proof fn law_backup_comes_first(j: JobView, event: EventView)
    requires
        wants_backup(j),
    ensures
        (answered(j, event).stage is Writing && !(j.stage is Writing)) ==> j.stage is BackingUp
            && event is Done,
        (answered(j, event).stage is Persisting && !(j.stage is Persisting)) ==> j.stage
            is SavingOriginal && event is Done,
{
}

/// A file counts as modified, and can be undone, only where it was written.
pub proof fn law_modified_means_written(j: JobView, event: EventView)
    requires
        !j.outcome.modified,
        j.outcome.undo is None,
    ensures
        answered(j, event).outcome.modified ==> (j.stage is Writing || j.stage is Persisting)
            && event is Done && answered(j, event).stage is Finished,
        answered(j, event).outcome.undo is Some ==> answered(j, event).outcome.modified,
{
}

/// A job ends with an error just where a step of it failed, or its operation
/// or the decoding of its file did; nothing else adds an error.
pub proof fn law_errors_end_the_job(j: JobView, event: EventView)
    ensures
        answered(j, event).outcome.errors == j.outcome.errors || (answered(j, event).stage
            is Finished && answered(j, event).outcome.errors.drop_last() == j.outcome.errors
            && answered(j, event).outcome.errors.len() == j.outcome.errors.len() + 1
            && !answered(j, event).outcome.modified == !j.outcome.modified),
{
    let k = answered(j, event);
    if k.outcome.errors != j.outcome.errors {
        assert(k.outcome.errors.drop_last() =~= j.outcome.errors);
    }
}

/// A finished job stays as it is.
pub proof fn law_finished_is_final(j: JobView, event: EventView)
    requires
        j.stage is Finished,
    ensures
        answered(j, event) == j,
{
}

} // verus!
