//! Applying one operation to files, one at a time, with an error for each way
//! it can go wrong.
use vstd::prelude::*;

use crate::diff::Change;
use crate::edits::{EngineOutput, OutputView};
use crate::encoding;
use crate::encoding::{decode, encode, SourceEncoding};
use crate::engine;
use crate::error::{ErrorView, RipsedError};
use crate::matcher;
use crate::matcher::Matcher;
use crate::operation::{LineRange, Op, OpView, RangeSpec, RangeView};
use crate::process;
use crate::rex;
use crate::strings::owned;
use crate::undo::UndoEntry;

verus! {

/// How an operation is applied to files.
#[derive(Debug, Clone, Copy, PartialEq, Eq, Structural)]
pub struct ApplyOptions {
    /// Preview changes without writing.
    pub dry_run: bool,
    /// Make a backup before writing.
    pub backup: bool,
    /// Only operate on these lines.
    pub line_range: Option<LineRange>,
    /// How many lines of context changes carry.
    pub context_lines: usize,
    /// How long to wait for the lock of a file, in milliseconds.
    pub lock_timeout_ms: u64,
}

impl Default for ApplyOptions {
    fn default() -> (o: ApplyOptions)
        ensures
            o == (ApplyOptions {
                dry_run: true,
                backup: false,
                line_range: None,
                context_lines: 3,
                lock_timeout_ms: 5000,
            }),
    {
        ApplyOptions {
            dry_run: true,
            backup: false,
            line_range: None,
            context_lines: 3,
            lock_timeout_ms: 5000,
        }
    }
}

/// What an operation did to one file.
#[derive(Debug, PartialEq, Eq)]
pub struct FileResult {
    pub path: String,
    pub changes: Vec<Change>,
    /// What takes the changes back, `None` for a dry run.
    pub undo: Option<UndoEntry>,
}

/// What can go wrong, with the path of the file and the reason.
#[derive(Debug, PartialEq, Eq)]
pub enum ApplyError {
    /// The lock could not be taken.
    Lock(String, String),
    /// The file could not be read.
    Read(String, String),
    /// The backup could not be made.
    Backup(String, String),
    /// The file could not be written.
    Write(String, String),
    /// The operation itself cannot be carried out.
    Engine(RipsedError),
    /// Files could not be discovered.
    Discovery(String),
}

/// What an [`ApplyError`] says.
#[verifier::ext_equal]
pub enum ApplyErrorView {
    Lock(Seq<char>, Seq<char>),
    Read(Seq<char>, Seq<char>),
    Backup(Seq<char>, Seq<char>),
    Write(Seq<char>, Seq<char>),
    Engine(ErrorView),
    Discovery(Seq<char>),
}

impl View for ApplyError {
    type V = ApplyErrorView;

    open spec fn view(&self) -> ApplyErrorView {
        match self {
            ApplyError::Lock(p, e) => ApplyErrorView::Lock(p@, e@),
            ApplyError::Read(p, e) => ApplyErrorView::Read(p@, e@),
            ApplyError::Backup(p, e) => ApplyErrorView::Backup(p@, e@),
            ApplyError::Write(p, e) => ApplyErrorView::Write(p@, e@),
            ApplyError::Engine(e) => ApplyErrorView::Engine(e@),
            ApplyError::Discovery(e) => ApplyErrorView::Discovery(e@),
        }
    }
}

/// What a user is shown of an error.
pub open spec fn apply_message(e: ApplyErrorView) -> Seq<char> {
    match e {
        ApplyErrorView::Lock(p, d) => "failed to lock "@ + p + ": "@ + d,
        ApplyErrorView::Read(p, d) => "failed to read "@ + p + ": "@ + d,
        ApplyErrorView::Backup(p, d) => "backup failed for "@ + p + ": "@ + d,
        ApplyErrorView::Write(p, d) => "write failed for "@ + p + ": "@ + d,
        ApplyErrorView::Engine(e) => process::error_display(e),
        ApplyErrorView::Discovery(d) => "file discovery failed: "@ + d,
    }
}

impl ApplyError {
    /// What a user is shown of the error.
    pub fn message(&self) -> (r: String)
        ensures
            r@ == apply_message(self@),
    {
        match self {
            ApplyError::Lock(p, e) => process::message("failed to lock ", p.as_str(), e.as_str()),
            ApplyError::Read(p, e) => process::message("failed to read ", p.as_str(), e.as_str()),
            ApplyError::Backup(p, e) => process::message(
                "backup failed for ",
                p.as_str(),
                e.as_str(),
            ),
            ApplyError::Write(p, e) => process::message(
                "write failed for ",
                p.as_str(),
                e.as_str(),
            ),
            ApplyError::Engine(e) => e.display(),
            ApplyError::Discovery(e) => {
                let mut m = owned("file discovery failed: ");
                m.append(e.as_str());
                m
            },
        }
    }
}

// ---------------------------------------------------------------------------
// One file
// ---------------------------------------------------------------------------

/// What the work on a file wants done.
#[derive(Debug, Clone, PartialEq, Eq)]
pub enum ApplyStep {
    /// Take the lock of the file.
    Lock,
    /// Read the file.
    Read,
    /// Make a backup of the file.
    Backup,
    /// Put these bytes in place of the file, at once.
    Write(Vec<u8>),
    /// Nothing more.
    Finish,
}

/// How it went.
#[derive(Debug, Clone, PartialEq, Eq)]
pub enum ApplyEvent {
    Done,
    Bytes(Vec<u8>),
    Failed(String),
}

/// What an [`ApplyEvent`] says.
#[verifier::ext_equal]
pub enum ApplyEventView {
    Done,
    Bytes(Seq<u8>),
    Failed(Seq<char>),
}

impl View for ApplyEvent {
    type V = ApplyEventView;

    open spec fn view(&self) -> ApplyEventView {
        match self {
            ApplyEvent::Done => ApplyEventView::Done,
            ApplyEvent::Bytes(b) => ApplyEventView::Bytes(b@),
            ApplyEvent::Failed(e) => ApplyEventView::Failed(e@),
        }
    }
}

enum ApplyStage {
    Locking,
    Reading,
    BackingUp { output: EngineOutput, encoding: SourceEncoding },
    Writing { output: EngineOutput, encoding: SourceEncoding },
    Finished { result: Result<EngineOutput, ApplyError> },
}

/// Where the work on a file stands; once the file is read, with the encoding
/// that it was read in.
#[verifier::ext_equal]
pub enum ApplyStageView {
    Locking,
    Reading,
    BackingUp { output: OutputView, encoding: SourceEncoding },
    Writing { output: OutputView, encoding: SourceEncoding },
    Finished { result: Result<OutputView, ApplyErrorView> },
}

/// The view of a result.
pub open spec fn result_view(r: Result<EngineOutput, ApplyError>) -> Result<
    OutputView,
    ApplyErrorView,
> {
    match r {
        Ok(o) => Ok(o@),
        Err(e) => Err(e@),
    }
}

impl ApplyStage {
    spec fn shown(self) -> ApplyStageView {
        match self {
            ApplyStage::Locking => ApplyStageView::Locking,
            ApplyStage::Reading => ApplyStageView::Reading,
            ApplyStage::BackingUp { output, encoding } => ApplyStageView::BackingUp {
                output: output@,
                encoding,
            },
            ApplyStage::Writing { output, encoding } => ApplyStageView::Writing {
                output: output@,
                encoding,
            },
            ApplyStage::Finished { result } => ApplyStageView::Finished {
                result: result_view(result),
            },
        }
    }
}

/// The work on one file.
pub struct ApplyJob<'a> {
    path: String,
    op: &'a Op,
    options: &'a ApplyOptions,
    stage: ApplyStage,
}

/// What an [`ApplyJob`] is about, and where it stands.
#[verifier::ext_equal]
pub struct ApplyView {
    pub path: Seq<char>,
    pub op: OpView,
    pub options: ApplyOptions,
    pub stage: ApplyStageView,
}

/// Work that ended.
pub open spec fn ended(a: ApplyView, result: Result<OutputView, ApplyErrorView>) -> ApplyView {
    ApplyView { stage: ApplyStageView::Finished { result }, ..a }
}

/// The lines that may be touched.
pub open spec fn apply_range(o: ApplyOptions) -> Option<RangeView> {
    match o.line_range {
        Some(l) => Some(RangeView::Lines(l)),
        None => None,
    }
}

/// Work that knows what is to be written.
pub open spec fn writing(a: ApplyView, out: OutputView, e: SourceEncoding) -> ApplyView {
    if out.text is Some {
        ApplyView { stage: ApplyStageView::Writing { output: out, encoding: e }, ..a }
    } else {
        ended(a, Ok(out))
    }
}

/// Work that knows what the operation makes of the file.
pub open spec fn applied(a: ApplyView, out: OutputView, e: SourceEncoding) -> ApplyView {
    if a.options.dry_run || out.changes.len() == 0 {
        ended(a, Ok(out))
    } else if a.options.backup {
        ApplyView { stage: ApplyStageView::BackingUp { output: out, encoding: e }, ..a }
    } else {
        writing(a, out, e)
    }
}

/// Work that has the file in memory.
pub open spec fn read(a: ApplyView, bytes: Seq<u8>) -> ApplyView {
    match encoding::decoded(bytes) {
        Err(e) => ended(a, Err(ApplyErrorView::Read(a.path, process::decode_message(e)))),
        Ok(text) => if matcher::is_compiled(a.op) && rex::regex_compile_error(
            matcher::compiled_source(a.op),
        ) is Some {
            ended(
                a,
                Err(
                    ApplyErrorView::Engine(
                        matcher::bad_pattern(
                            a.op,
                            rex::regex_compile_error(matcher::compiled_source(a.op))->0,
                        ),
                    ),
                ),
            )
        } else {
            match engine::apply_result(
                text,
                a.op,
                matcher::matcher_of(a.op),
                apply_range(a.options),
                a.options.context_lines as int,
            ) {
                Err(e) => ended(a, Err(ApplyErrorView::Engine(e))),
                Ok(out) => applied(a, out, encoding::detected(bytes)),
            }
        },
    }
}

/// What becomes of the work when it is told how its last step went. An answer
/// that does not fit changes nothing.
pub open spec fn answered(a: ApplyView, event: ApplyEventView) -> ApplyView {
    match (a.stage, event) {
        (ApplyStageView::Locking, ApplyEventView::Done) => ApplyView {
            stage: ApplyStageView::Reading,
            ..a
        },
        (ApplyStageView::Locking, ApplyEventView::Failed(e)) => ended(
            a,
            Err(ApplyErrorView::Lock(a.path, e)),
        ),
        (ApplyStageView::Reading, ApplyEventView::Bytes(b)) => read(a, b),
        (ApplyStageView::Reading, ApplyEventView::Failed(e)) => ended(
            a,
            Err(ApplyErrorView::Read(a.path, e)),
        ),
        (ApplyStageView::BackingUp { output, encoding }, ApplyEventView::Done) => writing(
            a,
            output,
            encoding,
        ),
        (ApplyStageView::BackingUp { .. }, ApplyEventView::Failed(e)) => ended(
            a,
            Err(ApplyErrorView::Backup(a.path, e)),
        ),
        (ApplyStageView::Writing { output, .. }, ApplyEventView::Done) => ended(a, Ok(output)),
        (ApplyStageView::Writing { .. }, ApplyEventView::Failed(e)) => ended(
            a,
            Err(ApplyErrorView::Write(a.path, e)),
        ),
        _ => a,
    }
}

impl<'a> View for ApplyJob<'a> {
    type V = ApplyView;

    closed spec fn view(&self) -> ApplyView {
        ApplyView {
            path: self.path@,
            op: self.op@,
            options: *self.options,
            stage: self.stage.shown(),
        }
    }
}

/// Begins the work on one file: a dry run takes no lock.
pub fn apply_to_file<'a>(path: &str, op: &'a Op, options: &'a ApplyOptions) -> (j: ApplyJob<'a>)
    ensures
        j@ == (ApplyView {
            path: path@,
            op: op@,
            options: *options,
            stage: if options.dry_run {
                ApplyStageView::Reading
            } else {
                ApplyStageView::Locking
            },
        }),
{
    ApplyJob {
        path: owned(path),
        op,
        options,
        stage: if options.dry_run {
            ApplyStage::Reading
        } else {
            ApplyStage::Locking
        },
    }
}

impl<'a> ApplyJob<'a> {
    /// What the work wants done. A file is written in the encoding that it was
    /// read in, with the byte-order mark that it had.
    pub fn action(&self) -> (s: ApplyStep)
        ensures
            match self@.stage {
                ApplyStageView::Locking => s is Lock,
                ApplyStageView::Reading => s is Read,
                ApplyStageView::BackingUp { .. } => s is Backup,
                ApplyStageView::Writing { output, encoding } => match output.text {
                    Some(text) => s matches ApplyStep::Write(b) && b@ == encoding::encoded(
                        text,
                        encoding,
                    ),
                    None => s is Finish,
                },
                ApplyStageView::Finished { .. } => s is Finish,
            },
    {
        match &self.stage {
            ApplyStage::Locking => ApplyStep::Lock,
            ApplyStage::Reading => ApplyStep::Read,
            ApplyStage::BackingUp { .. } => ApplyStep::Backup,
            ApplyStage::Writing { output, encoding } => match &output.text {
                Some(text) => ApplyStep::Write(encode(text.as_str(), *encoding)),
                None => ApplyStep::Finish,
            },
            ApplyStage::Finished { .. } => ApplyStep::Finish,
        }
    }

    /// What the work came to, `None` where it is not done.
    pub fn into_result(self) -> (r: Option<Result<EngineOutput, ApplyError>>)
        ensures
            match self@.stage {
                ApplyStageView::Finished { result } => r matches Some(x) && result_view(x)
                    == result,
                _ => r is None,
            },
    {
        match self.stage {
            ApplyStage::Finished { result } => Some(result),
            _ => None,
        }
    }

    fn end(self, result: Result<EngineOutput, ApplyError>) -> (j: ApplyJob<'a>)
        ensures
            j@ == ended(self@, result_view(result)),
    {
        ApplyJob {
            path: self.path,
            op: self.op,
            options: self.options,
            stage: ApplyStage::Finished { result },
        }
    }

    fn write(self, output: EngineOutput, encoding: SourceEncoding) -> (j: ApplyJob<'a>)
        ensures
            j@ == writing(self@, output@, encoding),
    {
        let has_text = match &output.text {
            Some(_) => true,
            None => false,
        };
        if has_text {
            ApplyJob {
                path: self.path,
                op: self.op,
                options: self.options,
                stage: ApplyStage::Writing { output, encoding },
            }
        } else {
            self.end(Ok(output))
        }
    }

    fn read(self, bytes: Vec<u8>) -> (j: ApplyJob<'a>)
        ensures
            j@ == read(self@, bytes@),
    {
        let (text, encoding) = match decode(bytes) {
            Ok(decoded) => decoded,
            Err(e) => {
                let path = self.path.clone();
                return self.end(Err(ApplyError::Read(path, e.message())));
            },
        };
        let matcher = match Matcher::new(self.op) {
            Ok(m) => m,
            Err(e) => {
                return self.end(Err(ApplyError::Engine(e)));
            },
        };
        let range = match self.options.line_range {
            Some(l) => Some(RangeSpec::Lines(l)),
            None => None,
        };
        let output = match engine::apply(
            text.as_str(),
            self.op,
            &matcher,
            range,
            self.options.context_lines,
        ) {
            Ok(o) => o,
            Err(e) => {
                return self.end(Err(ApplyError::Engine(e)));
            },
        };
        if self.options.dry_run || output.changes.len() == 0 {
            self.end(Ok(output))
        } else if self.options.backup {
            ApplyJob {
                path: self.path,
                op: self.op,
                options: self.options,
                stage: ApplyStage::BackingUp { output, encoding },
            }
        } else {
            self.write(output, encoding)
        }
    }

    /// Tells the work how its last step went.
    pub fn answer(self, event: ApplyEvent) -> (j: ApplyJob<'a>)
        ensures
            j@ == answered(self@, event@),
    {
        let ApplyJob { path, op, options, stage } = self;
        let job = ApplyJob { path, op, options, stage: ApplyStage::Reading };
        match stage {
            ApplyStage::Locking => match event {
                ApplyEvent::Done => job,
                ApplyEvent::Failed(e) => {
                    let path = job.path.clone();
                    job.end(Err(ApplyError::Lock(path, e)))
                },
                _ => ApplyJob {
                    path: job.path,
                    op: job.op,
                    options: job.options,
                    stage: ApplyStage::Locking,
                },
            },
            ApplyStage::Reading => match event {
                ApplyEvent::Bytes(b) => job.read(b),
                ApplyEvent::Failed(e) => {
                    let path = job.path.clone();
                    job.end(Err(ApplyError::Read(path, e)))
                },
                _ => job,
            },
            ApplyStage::BackingUp { output, encoding } => match event {
                ApplyEvent::Done => job.write(output, encoding),
                ApplyEvent::Failed(e) => {
                    let path = job.path.clone();
                    job.end(Err(ApplyError::Backup(path, e)))
                },
                _ => ApplyJob {
                    path: job.path,
                    op: job.op,
                    options: job.options,
                    stage: ApplyStage::BackingUp { output, encoding },
                },
            },
            ApplyStage::Writing { output, encoding } => match event {
                ApplyEvent::Done => job.end(Ok(output)),
                ApplyEvent::Failed(e) => {
                    let path = job.path.clone();
                    job.end(Err(ApplyError::Write(path, e)))
                },
                _ => ApplyJob {
                    path: job.path,
                    op: job.op,
                    options: job.options,
                    stage: ApplyStage::Writing { output, encoding },
                },
            },
            ApplyStage::Finished { result } => job.end(result),
        }
    }
}

// ---------------------------------------------------------------------------
// Several files
// ---------------------------------------------------------------------------

/// How many of the first `n` files were changed.
pub open spec fn changed_count(results: Seq<(String, Result<EngineOutput, ApplyError>)>, n: int) -> nat
    decreases n,
{
    if n <= 0 {
        0
    } else {
        changed_count(results, n - 1) + if results[n - 1].1 matches Ok(o) && o.changes@.len() > 0 {
            1nat
        } else {
            0nat
        }
    }
}

/// The position of the first file that failed from `i` on, or how many there are.
pub open spec fn first_failure(results: Seq<(String, Result<EngineOutput, ApplyError>)>, i: int) -> int
    decreases results.len() - i,
{
    if i < 0 || i >= results.len() {
        results.len() as int
    } else if results[i].1 is Err {
        i
    } else {
        first_failure(results, i + 1)
    }
}

/// What takes a change back: after a dry run there is nothing to take back.
pub open spec fn undo_of(output: EngineOutput, dry_run: bool) -> Option<UndoEntry> {
    if dry_run {
        None
    } else {
        output.undo
    }
}

/// Puts together what came of files, in order: one result for each file that
/// was changed, or the first error.
pub fn apply_to_files(
    results: Vec<(String, Result<EngineOutput, ApplyError>)>,
    dry_run: bool,
) -> (r: Result<Vec<FileResult>, ApplyError>)
    ensures
        match r {
            Ok(v) => {
                &&& first_failure(results@, 0) == results@.len()
                &&& v@.len() == changed_count(results@, results@.len() as int)
                &&& forall|k: int| #![trigger results@[k]]
                    0 <= k < results@.len() && (results@[k].1 matches Ok(o) && o.changes@.len()
                        > 0) ==> ({
                        let f = v@[changed_count(results@, k) as int];
                        &&& f.path == results@[k].0
                        &&& f.changes == results@[k].1->Ok_0.changes
                        &&& f.undo == undo_of(results@[k].1->Ok_0, dry_run)
                    })
            },
            Err(e) => first_failure(results@, 0) < results@.len() && results@[first_failure(
                results@,
                0,
            )].1 == Err::<EngineOutput, ApplyError>(e),
        },
{
    let ghost given = results@;
    let mut out: Vec<FileResult> = Vec::new();
    for entry in it: results
        invariant
            it.seq() == given,
            first_failure(given, 0) == first_failure(given, it.index() as int),
            out@.len() == changed_count(given, it.index() as int),
            forall|k: int| #![trigger given[k]]
                0 <= k < it.index() && (given[k].1 matches Ok(o) && o.changes@.len() > 0) ==> {
                    &&& changed_count(given, k) < out@.len()
                    &&& out@[changed_count(given, k) as int].path == given[k].0
                    &&& out@[changed_count(given, k) as int].changes == given[k].1->Ok_0.changes
                    &&& out@[changed_count(given, k) as int].undo == undo_of(
                        given[k].1->Ok_0,
                        dry_run,
                    )
                },
    {
        let (path, result) = entry;
        match result {
            Ok(output) => {
                if output.changes.len() > 0 {
                    let undo = if dry_run {
                        None
                    } else {
                        output.undo
                    };
                    out.push(FileResult { path, changes: output.changes, undo });
                }
            },
            Err(e) => {
                return Err(e);
            },
        }
    }
    Ok(out)
}

/// A file keeps its encoding: what is written holds the text that the operation
/// made, in the encoding that the file was read in.
pub proof fn law_encoding_is_kept(a: ApplyView, bytes: Seq<u8>)
    requires
        a.stage is Reading,
    ensures
        match answered(a, ApplyEventView::Bytes(bytes)).stage {
            ApplyStageView::Writing { encoding, .. } => encoding == encoding::detected(bytes),
            ApplyStageView::BackingUp { output, encoding } => {
                &&& encoding == encoding::detected(bytes)
                &&& answered(
                    answered(a, ApplyEventView::Bytes(bytes)),
                    ApplyEventView::Done,
                ).stage matches ApplyStageView::Writing { output: o, encoding: e } ==> o == output
                    && e == encoding
            },
            _ => true,
        },
{
}

/// A dry run takes no lock, makes no backup and writes nothing.
pub proof fn law_dry_run_touches_nothing(a: ApplyView, event: ApplyEventView)
    requires
        a.options.dry_run,
        a.stage is Reading || a.stage is Finished,
    ensures
        answered(a, event).stage is Reading || answered(a, event).stage is Finished,
        answered(a, event).options == a.options,
{
}

/// A file that is not changed is not written, and a file is written only
/// behind the backup that was asked for.
pub proof fn law_writes_only_changes(a: ApplyView, event: ApplyEventView)
    requires
        a.stage is Reading,
        answered(a, event).stage is Writing || answered(a, event).stage is BackingUp,
    ensures
        !a.options.dry_run,
        a.options.backup <==> answered(a, event).stage is BackingUp,
        match answered(a, event).stage {
            ApplyStageView::Writing { output, .. } => output.changes.len() > 0,
            ApplyStageView::BackingUp { output, .. } => output.changes.len() > 0,
            _ => false,
        },
{
}

} // verus!
