//! The run of a structured request: operation by operation, file by file.
//!
//! A [`JsonRun`] says what it wants done ([`JsonRun::action`]) and is told how
//! that went ([`JsonRun::answer`]). Each operation sees what the operations
//! before it made of a file.
use vstd::prelude::*;

use crate::diff;
use crate::diff::{OpResult, ResultView, Summary};
use crate::edits::{EngineOutput, OutputView};
use crate::encoding;
use crate::encoding::{decode, encode, SourceEncoding};
use crate::engine;
use crate::engine::build_op_result;
use crate::error;
use crate::error::{ErrorView, RipsedError};
use crate::globs;
use crate::globs::{select_files, FileName};
use crate::matcher;
use crate::matcher::Matcher;
use crate::operation::{Op, OpOptions, OpView, OptionsView};
use crate::process;
use crate::rex;
use crate::run;
use crate::run::{add_counts, EXIT_ERROR, EXIT_NO_MATCHES};
use crate::strings::owned;
use crate::undo;
use crate::undo::{record_undo, LogView, UndoEntry, UndoLog};

verus! {

/// How many lines of context the changes of a request carry.
pub const JSON_CONTEXT_LINES: usize = 3;

/// A file that is written when all operations are done.
#[derive(Debug, Clone, PartialEq, Eq)]
pub struct PendingWrite {
    /// The number of the file.
    pub file: usize,
    pub bytes: Vec<u8>,
}

/// The view of a list of pending writes.
pub open spec fn pending_view(v: Seq<PendingWrite>) -> Seq<(int, Seq<u8>)> {
    Seq::new(v.len(), |i: int| (v[i].file as int, v[i].bytes@))
}

/// What a run wants done. Files go by their numbers.
#[derive(Debug, Clone, PartialEq, Eq)]
pub enum JsonStep {
    /// Take the lock of a file, and keep it until the run is over.
    Lock(usize),
    /// Read a file.
    Read(usize),
    /// Nothing: the text of the file is known from an earlier operation.
    Reuse(usize),
    /// Report the last result.
    Report,
    /// Make a backup of a file.
    Backup(usize),
    /// Put these bytes in place of a file, at once.
    Write(usize, Vec<u8>),
    /// Write all pending files, or none of them.
    Commit,
    /// Nothing more.
    Finish,
}

/// How it went.
#[derive(Debug, Clone, PartialEq, Eq)]
pub enum JsonEvent {
    Done,
    Bytes(Vec<u8>),
    /// The file may not be read.
    Denied,
    Failed(String),
}

/// What a [`JsonEvent`] says.
#[verifier::ext_equal]
pub enum JsonEventView {
    Done,
    Bytes(Seq<u8>),
    Denied,
    Failed(Seq<char>),
}

impl View for JsonEvent {
    type V = JsonEventView;

    open spec fn view(&self) -> JsonEventView {
        match self {
            JsonEvent::Done => JsonEventView::Done,
            JsonEvent::Bytes(b) => JsonEventView::Bytes(b@),
            JsonEvent::Denied => JsonEventView::Denied,
            JsonEvent::Failed(e) => JsonEventView::Failed(e@),
        }
    }
}

/// The view of an optional undo entry.
pub open spec fn entry_view(e: Option<UndoEntry>) -> Option<Seq<char>> {
    match e {
        Some(entry) => Some(entry.original_text@),
        None => None,
    }
}

enum JsonStage {
    Ready,
    Locking,
    Reading,
    Reusing,
    Reporting { text: Option<String>, undo: Option<UndoEntry>, encoding: SourceEncoding },
    BackingUp { bytes: Vec<u8> },
    Writing { bytes: Vec<u8> },
    Committing,
    Finished,
}

/// Where a run stands.
#[verifier::ext_equal]
pub enum JsonStageView {
    /// Before an operation on a file.
    Ready,
    /// Waiting for the lock of the file.
    Locking,
    /// Waiting for the file.
    Reading,
    /// The text of the file is known.
    Reusing,
    /// Waiting for the result to be reported.
    Reporting { text: Option<Seq<char>>, undo: Option<Seq<char>>, encoding: SourceEncoding },
    /// Waiting for the backup of the file.
    BackingUp { bytes: Seq<u8> },
    /// Waiting for the file to be written.
    Writing { bytes: Seq<u8> },
    /// Waiting for the pending files to be written.
    Committing,
    /// Done.
    Finished,
}

impl JsonStage {
    spec fn shown(self) -> JsonStageView {
        match self {
            JsonStage::Ready => JsonStageView::Ready,
            JsonStage::Locking => JsonStageView::Locking,
            JsonStage::Reading => JsonStageView::Reading,
            JsonStage::Reusing => JsonStageView::Reusing,
            JsonStage::Reporting { text, undo, encoding } => JsonStageView::Reporting {
                text: error::opt_view(text),
                undo: entry_view(undo),
                encoding,
            },
            JsonStage::BackingUp { bytes } => JsonStageView::BackingUp { bytes: bytes@ },
            JsonStage::Writing { bytes } => JsonStageView::Writing { bytes: bytes@ },
            JsonStage::Committing => JsonStageView::Committing,
            JsonStage::Finished => JsonStageView::Finished,
        }
    }
}

/// Totals of a run.
#[verifier::ext_equal]
pub struct SummaryView {
    pub files_matched: int,
    pub files_modified: int,
    pub total_replacements: int,
}

/// The view of totals.
pub open spec fn summary_view(s: Summary) -> SummaryView {
    SummaryView {
        files_matched: s.files_matched as int,
        files_modified: s.files_modified as int,
        total_replacements: s.total_replacements as int,
    }
}

/// The view of the texts that earlier operations left.
pub open spec fn cache_view(v: Seq<Option<(String, SourceEncoding)>>) -> Seq<
    Option<(Seq<char>, SourceEncoding)>,
> {
    Seq::new(
        v.len(),
        |i: int|
            match v[i] {
                Some((text, e)) => Some((text@, e)),
                None => None,
            },
    )
}

/// The view of a list of errors.
pub open spec fn errors_view(v: Seq<RipsedError>) -> Seq<ErrorView> {
    Seq::new(v.len(), |i: int| v[i]@)
}

/// The view of a list of operations with their globs.
pub open spec fn ops_view(v: Seq<(Op, Option<String>)>) -> Seq<OpView> {
    Seq::new(v.len(), |i: int| v[i].0@)
}

/// The view of which operation is for which file.
pub open spec fn selected_view(v: Seq<Vec<bool>>) -> Seq<Seq<bool>> {
    Seq::new(v.len(), |i: int| v[i]@)
}

/// The run of a request.
pub struct JsonRun<'a> {
    ops: &'a Vec<(Op, Option<String>)>,
    options: &'a OpOptions,
    files: &'a Vec<FileName>,
    jsonl: bool,
    selected: Vec<Vec<bool>>,
    op: usize,
    file: usize,
    matcher: Option<Matcher>,
    cache: Vec<Option<(String, SourceEncoding)>>,
    locked: Vec<bool>,
    summary: Summary,
    results: Vec<OpResult>,
    errors: Vec<RipsedError>,
    pending: Vec<PendingWrite>,
    log: Option<UndoLog>,
    stage: JsonStage,
}

/// What a [`JsonRun`] is about, and where it stands.
#[verifier::ext_equal]
pub struct JsonView {
    pub ops: Seq<OpView>,
    pub options: OptionsView,
    pub files: Seq<FileName>,
    /// Whether results are reported as they come.
    pub jsonl: bool,
    /// Which operation is for which file.
    pub selected: Seq<Seq<bool>>,
    /// The operation that the run is at.
    pub op: int,
    /// The file that the run is at.
    pub file: int,
    /// What earlier operations made of the files.
    pub cache: Seq<Option<(Seq<char>, SourceEncoding)>>,
    /// The files whose lock is held.
    pub locked: Seq<bool>,
    pub summary: SummaryView,
    pub results: Seq<ResultView>,
    pub errors: Seq<ErrorView>,
    /// What is to be written when all operations are done.
    pub pending: Seq<(int, Seq<u8>)>,
    pub log: Option<LogView>,
    pub stage: JsonStageView,
}

/// Whether an operation cannot run because its pattern does not compile.
pub open spec fn is_bad(op: OpView) -> bool {
    matcher::is_compiled(op) && rex::regex_compile_error(matcher::compiled_source(op)) is Some
}

/// What is said of such an operation.
pub open spec fn bad_op_error(op: OpView, index: int) -> ErrorView {
    ErrorView {
        operation_index: Some(index as usize),
        ..matcher::bad_pattern(op, rex::regex_compile_error(matcher::compiled_source(op))->0)
    }
}

/// A run that is at a file whose lock it holds.
pub open spec fn opened(v: JsonView) -> JsonView {
    JsonView {
        stage: if v.cache[v.file] is Some {
            JsonStageView::Reusing
        } else {
            JsonStageView::Reading
        },
        ..v
    }
}

/// A run that goes on to the next thing it has to do. An operation that cannot
/// run is an error and is passed over, and so are files that it is not for.
pub open spec fn settled(v: JsonView) -> JsonView
    decreases v.ops.len() - v.op, v.files.len() - v.file,
{
    if v.op < 0 || v.op >= v.ops.len() {
        JsonView {
            stage: if v.options.atomic && v.pending.len() > 0 {
                JsonStageView::Committing
            } else {
                JsonStageView::Finished
            },
            ..v
        }
    } else if is_bad(v.ops[v.op]) {
        settled(
            JsonView {
                errors: v.errors.push(bad_op_error(v.ops[v.op], v.op)),
                op: v.op + 1,
                file: 0,
                ..v
            },
        )
    } else if v.file < 0 || v.file >= v.files.len() {
        settled(JsonView { op: v.op + 1, file: 0, ..v })
    } else if !v.selected[v.op][v.file] {
        settled(JsonView { file: v.file + 1, ..v })
    } else if !v.options.dry_run && !v.locked[v.file] {
        JsonView { stage: JsonStageView::Locking, ..v }
    } else {
        opened(v)
    }
}

/// A run that is done with a file.
pub open spec fn next(v: JsonView) -> JsonView {
    JsonView { file: v.file + 1, stage: JsonStageView::Ready, ..v }
}

/// A run that is done with a file because of an error.
pub open spec fn next_with(v: JsonView, e: ErrorView) -> JsonView {
    next(JsonView { errors: v.errors.push(e), ..v })
}

/// The path of the file that a run is at.
pub open spec fn path_of(v: JsonView) -> Seq<char> {
    v.files[v.file].path@
}

/// A run that has what is to be written for a file.
pub open spec fn storing(v: JsonView, bytes: Seq<u8>) -> JsonView {
    if v.options.atomic {
        next(JsonView { pending: v.pending.push((v.file, bytes)), ..v })
    } else {
        JsonView { stage: JsonStageView::Writing { bytes }, ..v }
    }
}

/// A run whose result has been reported, where it is: what can be undone is
/// recorded, and the file is backed up if asked for.
pub open spec fn saving(
    v: JsonView,
    text: Option<Seq<char>>,
    undo: Option<Seq<char>>,
    e: SourceEncoding,
    now: Seq<char>,
) -> JsonView {
    if v.options.dry_run || text is None {
        next(v)
    } else {
        let bytes = encoding::encoded(text->0, e);
        let recorded = JsonView {
            log: match (v.log, undo) {
                (Some(l), Some(original)) => Some(
                    undo::logged(l, undo::undo_record(now, path_of(v), original, e)),
                ),
                _ => v.log,
            },
            ..v
        };
        if v.options.backup {
            JsonView { stage: JsonStageView::BackingUp { bytes }, ..recorded }
        } else {
            storing(recorded, bytes)
        }
    }
}

/// A run that knows what its operation makes of a file.
pub open spec fn edited(v: JsonView, out: OutputView, e: SourceEncoding, now: Seq<char>) -> JsonView {
    let cached = JsonView {
        cache: match out.text {
            Some(text) => v.cache.update(v.file, Some((text, e))),
            None => v.cache,
        },
        ..v
    };
    if out.changes.len() == 0 {
        next(cached)
    } else {
        let counted = JsonView {
            summary: SummaryView {
                files_matched: run::capped_sum(v.summary.files_matched, 1),
                total_replacements: run::capped_sum(
                    v.summary.total_replacements,
                    out.changes.len() as int,
                ),
                ..v.summary
            },
            results: v.results.push(
                ResultView {
                    operation_index: v.op,
                    files: seq![(path_of(v), out.changes)],
                },
            ),
            ..cached
        };
        if v.jsonl {
            JsonView {
                stage: JsonStageView::Reporting { text: out.text, undo: out.undo, encoding: e },
                ..counted
            }
        } else {
            saving(counted, out.text, out.undo, e, now)
        }
    }
}

/// A run that has the text of a file.
pub open spec fn applied(v: JsonView, text: Seq<char>, e: SourceEncoding, now: Seq<char>) -> JsonView {
    match engine::apply_result(
        text,
        v.ops[v.op],
        matcher::matcher_of(v.ops[v.op]),
        v.options.range_spec(),
        JSON_CONTEXT_LINES as int,
    ) {
        Err(error) => next_with(v, error),
        Ok(out) => edited(v, out, e, now),
    }
}

/// What becomes of a run that is told how its last step went, before it goes
/// on to the next thing.
pub open spec fn reacted(v: JsonView, event: JsonEventView, now: Seq<char>) -> JsonView {
    match (v.stage, event) {
        (JsonStageView::Locking, JsonEventView::Done) => opened(
            JsonView { locked: v.locked.update(v.file, true), ..v },
        ),
        (JsonStageView::Locking, JsonEventView::Failed(e)) => next_with(
            v,
            error::write_failed_error(path_of(v), "lock failed: "@ + e),
        ),
        (JsonStageView::Reading, JsonEventView::Bytes(b)) => match encoding::decoded(b) {
            Err(e) => next_with(
                v,
                error::write_failed_error(path_of(v), process::decode_message(e)),
            ),
            Ok(text) => applied(v, text, encoding::detected(b), now),
        },
        (JsonStageView::Reading, JsonEventView::Denied) => next_with(
            v,
            error::permission_denied_error(path_of(v)),
        ),
        (JsonStageView::Reading, JsonEventView::Failed(e)) => next_with(
            v,
            error::write_failed_error(path_of(v), e),
        ),
        (JsonStageView::Reusing, JsonEventView::Done) => match v.cache[v.file] {
            Some((text, e)) => applied(v, text, e, now),
            None => v,
        },
        (JsonStageView::Reporting { text, undo, encoding }, JsonEventView::Done) => saving(
            v,
            text,
            undo,
            encoding,
            now,
        ),
        (JsonStageView::BackingUp { bytes }, JsonEventView::Done) => storing(v, bytes),
        (JsonStageView::BackingUp { .. }, JsonEventView::Failed(e)) => next_with(
            v,
            error::write_failed_error(path_of(v), "backup failed: "@ + e),
        ),
        (JsonStageView::Writing { .. }, JsonEventView::Done) => next(
            JsonView {
                summary: SummaryView {
                    files_modified: run::capped_sum(v.summary.files_modified, 1),
                    ..v.summary
                },
                ..v
            },
        ),
        (JsonStageView::Writing { .. }, JsonEventView::Failed(e)) => next_with(
            v,
            error::write_failed_error(path_of(v), e),
        ),
        (JsonStageView::Committing, JsonEventView::Done) => JsonView {
            summary: SummaryView {
                files_modified: run::capped_sum(
                    v.summary.files_modified,
                    v.pending.len() as int,
                ),
                ..v.summary
            },
            stage: JsonStageView::Finished,
            ..v
        },
        (JsonStageView::Committing, JsonEventView::Failed(e)) => JsonView {
            errors: v.errors.push(
                error::internal_error_view("Atomic batch write failed: "@ + e),
            ),
            log: None,
            stage: JsonStageView::Finished,
            ..v
        },
        _ => v,
    }
}

/// What becomes of a run that is told how its last step went. An answer that
/// does not fit what the run waits for changes nothing.
pub open spec fn answered(v: JsonView, event: JsonEventView, now: Seq<char>) -> JsonView {
    let r = reacted(v, event, now);
    if r.stage is Ready {
        settled(r)
    } else {
        r
    }
}

/// A run before its first step.
pub open spec fn json_start(
    ops: Seq<OpView>,
    options: OptionsView,
    files: Seq<FileName>,
    jsonl: bool,
    selected: Seq<Seq<bool>>,
    log: Option<LogView>,
) -> JsonView {
    settled(
        JsonView {
            ops,
            options,
            files,
            jsonl,
            selected,
            op: 0,
            file: 0,
            cache: Seq::new(files.len(), |i: int| None),
            locked: Seq::new(files.len(), |i: int| false),
            summary: SummaryView { files_matched: 0, files_modified: 0, total_replacements: 0 },
            results: Seq::empty(),
            errors: Seq::empty(),
            pending: Seq::empty(),
            log,
            stage: JsonStageView::Ready,
        },
    )
}

/// Whether the choice of files is that of the globs, as far as the globs and
/// the paths are portable.
pub open spec fn follows_globs(
    ops: Seq<(Op, Option<String>)>,
    files: Seq<FileName>,
    selected: Seq<Seq<bool>>,
) -> bool {
    &&& selected.len() == ops.len()
    &&& forall|k: int| #![trigger selected[k]]
        0 <= k < ops.len() ==> follows_glob(ops[k].1, files, selected[k])
}

/// Whether the choice of files is that of one glob.
pub open spec fn follows_glob(glob: Option<String>, files: Seq<FileName>, chosen: Seq<bool>) -> bool {
    &&& chosen.len() == files.len()
    &&& forall|i: int| #![trigger chosen[i]]
        0 <= i < files.len() ==> globs::answers_glob(error::opt_view(glob), files[i], chosen[i])
}

impl<'a> View for JsonRun<'a> {
    type V = JsonView;

    closed spec fn view(&self) -> JsonView {
        JsonView {
            ops: ops_view(self.ops@),
            options: self.options@,
            files: self.files@,
            jsonl: self.jsonl,
            selected: selected_view(self.selected@),
            op: self.op as int,
            file: self.file as int,
            cache: cache_view(self.cache@),
            locked: self.locked@,
            summary: summary_view(self.summary),
            results: diff::results_view(self.results@),
            errors: errors_view(self.errors@),
            pending: pending_view(self.pending@),
            log: run::log_view(self.log),
            stage: self.stage.shown(),
        }
    }
}

impl<'a> JsonRun<'a> {
    spec fn sized(self) -> bool {
        &&& self.cache@.len() == self.files@.len()
        &&& self.locked@.len() == self.files@.len()
        &&& self.selected@.len() == self.ops@.len()
        &&& forall|k: int| #![trigger self.selected@[k]]
            0 <= k < self.selected@.len() ==> self.selected@[k]@.len() == self.files@.len()
        &&& self.op <= self.ops@.len()
        &&& self.file <= self.files@.len()
    }

    spec fn has_matcher(self) -> bool {
        &&& self.op < self.ops@.len()
        &&& !is_bad(self.ops@[self.op as int].0@)
        &&& self.matcher matches Some(m) && m@ == matcher::matcher_of(
            self.ops@[self.op as int].0@,
        )
    }

    spec fn at_file(self) -> bool {
        self.has_matcher() && self.file < self.files@.len()
    }

    /// Whether the parts of a run fit together.
    pub closed spec fn valid(self) -> bool {
        &&& self.sized()
        &&& !(self.stage is Ready)
        &&& !(self.stage is Committing || self.stage is Finished) ==> self.at_file()
        &&& self.stage is Reusing ==> self.cache@[self.file as int] is Some
    }

    /// The run of operations with their globs over files.
    pub fn new(
        ops: &'a Vec<(Op, Option<String>)>,
        options: &'a OpOptions,
        files: &'a Vec<FileName>,
        jsonl: bool,
        log: Option<UndoLog>,
    ) -> (r: JsonRun<'a>)
        requires
            forall|k: int| #![trigger ops@[k]]
                0 <= k < ops@.len() ==> globs::can_select(error::opt_view(ops@[k].1)),
        ensures
            r.valid(),
            exists|selected: Seq<Seq<bool>>| #[trigger]
                follows_globs(ops@, files@, selected) && r@ == json_start(
                    ops_view(ops@),
                    options@,
                    files@,
                    jsonl,
                    selected,
                    run::log_view(log),
                ),
    {
        let mut selected: Vec<Vec<bool>> = Vec::new();
        let total = ops.len();
        let mut i: usize = 0;
        while i < total
            invariant
                forall|k: int| #![trigger ops@[k]]
                    0 <= k < ops@.len() ==> globs::can_select(error::opt_view(ops@[k].1)),
                total == ops@.len(),
                i <= total,
                selected@.len() == i,
                forall|k: int| #![trigger selected@[k]]
                    0 <= k < i ==> follows_glob(ops@[k].1, files@, selected@[k]@),
            decreases total - i,
        {
            selected.push(select_files(&ops[i].1, files));
            i += 1;
        }
        let mut cache: Vec<Option<(String, SourceEncoding)>> = Vec::new();
        let mut locked: Vec<bool> = Vec::new();
        let count = files.len();
        let mut i: usize = 0;
        while i < count
            invariant
                count == files@.len(),
                i <= count,
                cache@.len() == i,
                locked@.len() == i,
                forall|k: int| #![trigger cache@[k]] 0 <= k < i ==> cache@[k] is None,
                forall|k: int| #![trigger locked@[k]] 0 <= k < i ==> !locked@[k],
            decreases count - i,
        {
            cache.push(None);
            locked.push(false);
            i += 1;
        }
        let results: Vec<OpResult> = Vec::new();
        let errors: Vec<RipsedError> = Vec::new();
        let pending: Vec<PendingWrite> = Vec::new();
        let ghost chosen = selected_view(selected@);
        let r = JsonRun {
            ops,
            options,
            files,
            jsonl,
            selected,
            op: 0,
            file: 0,
            matcher: None,
            cache,
            locked,
            summary: Summary { files_matched: 0, files_modified: 0, total_replacements: 0 },
            results,
            errors,
            pending,
            log,
            stage: JsonStage::Ready,
        };
        proof {
            assert(cache_view(cache@) =~= Seq::new(files@.len(), |i: int| None));
            assert(locked@ =~= Seq::new(files@.len(), |i: int| false));
            assert(diff::results_view(results@) =~= Seq::<ResultView>::empty());
            assert(errors_view(errors@) =~= Seq::<ErrorView>::empty());
            assert(pending_view(pending@) =~= Seq::<(int, Seq<u8>)>::empty());
            assert(follows_globs(ops@, files@, chosen));
        }
        r.settle()
    }

    fn settle(self) -> (r: JsonRun<'a>)
        requires
            self.sized(),
            self.stage is Ready,
            self.file > 0 ==> self.has_matcher(),
        ensures
            r.valid(),
            r@ == settled(self@),
    {
        let ghost goal = settled(self@);
        let mut r = self;
        loop
            invariant
                r.sized(),
                r.stage is Ready,
                r.file > 0 ==> r.has_matcher(),
                settled(r@) == goal,
                goal == settled(self@),
            decreases r.ops@.len() - r.op, r.files@.len() - r.file,
        {
            if r.op >= r.ops.len() {
                r.stage = if r.options.atomic && r.pending.len() > 0 {
                    JsonStage::Committing
                } else {
                    JsonStage::Finished
                };
                return r;
            }
            let ghost v = r@;
            if r.file == 0 {
                match Matcher::new(&r.ops[r.op].0) {
                    Ok(m) => {
                        r.matcher = Some(m);
                    },
                    Err(e) => {
                        let mut e = e;
                        e.operation_index = Some(r.op);
                        let ghost before = r.errors@;
                        r.errors.push(e);
                        proof {
                            assert(errors_view(r.errors@) =~= errors_view(before).push(e@));
                            assert(e@ == bad_op_error(v.ops[v.op], v.op));
                        }
                        r.op = r.op + 1;
                        continue ;
                    },
                }
            }
            if r.file >= r.files.len() {
                r.op = r.op + 1;
                r.file = 0;
                continue ;
            }
            if !r.selected[r.op][r.file] {
                r.file = r.file + 1;
                continue ;
            }
            if !r.options.dry_run && !r.locked[r.file] {
                r.stage = JsonStage::Locking;
                return r;
            }
            return r.open();
        }
    }

    fn open(self) -> (r: JsonRun<'a>)
        requires
            self.sized(),
            self.at_file(),
        ensures
            r.valid(),
            r@ == opened(self@),
    {
        let mut r = self;
        r.stage = match &r.cache[r.file] {
            Some(_) => JsonStage::Reusing,
            None => JsonStage::Reading,
        };
        r
    }

    fn pass(self) -> (r: JsonRun<'a>)
        requires
            self.sized(),
            self.at_file(),
        ensures
            r.valid(),
            r@ == settled(next(self@)),
    {
        let mut r = self;
        let _total = r.files.len();
        r.file = r.file + 1;
        r.stage = JsonStage::Ready;
        r.settle()
    }

    fn pass_with(self, e: RipsedError) -> (r: JsonRun<'a>)
        requires
            self.sized(),
            self.at_file(),
        ensures
            r.valid(),
            r@ == settled(next_with(self@, e@)),
    {
        let mut r = self;
        let ghost before = r.errors@;
        r.errors.push(e);
        proof {
            assert(errors_view(r.errors@) =~= errors_view(before).push(e@));
        }
        r.pass()
    }

    fn write_failed(self, lead: &str, detail: &str) -> (r: JsonRun<'a>)
        requires
            self.sized(),
            self.at_file(),
        ensures
            r.valid(),
            r@ == settled(
                next_with(
                    self@,
                    error::write_failed_error(path_of(self@), lead@ + detail@),
                ),
            ),
    {
        let mut text = owned(lead);
        text.append(detail);
        let e = RipsedError::write_failed(self.files[self.file].path.as_str(), text.as_str());
        self.pass_with(e)
    }

    fn store(self, bytes: Vec<u8>) -> (r: JsonRun<'a>)
        requires
            self.sized(),
            self.at_file(),
        ensures
            r.valid(),
            r@ == (if storing(self@, bytes@).stage is Ready {
                settled(storing(self@, bytes@))
            } else {
                storing(self@, bytes@)
            }),
    {
        let mut r = self;
        if r.options.atomic {
            let ghost before = r.pending@;
            let file = r.file;
            r.pending.push(PendingWrite { file, bytes });
            proof {
                assert(pending_view(r.pending@) =~= pending_view(before).push(
                    (file as int, bytes@),
                ));
            }
            r.pass()
        } else {
            r.stage = JsonStage::Writing { bytes };
            r
        }
    }

    fn save(
        self,
        text: Option<String>,
        undo: Option<UndoEntry>,
        encoding: SourceEncoding,
        now: &str,
    ) -> (r: JsonRun<'a>)
        requires
            self.sized(),
            self.at_file(),
        ensures
            r.valid(),
            ({
                let v = saving(self@, error::opt_view(text), entry_view(undo), encoding, now@);
                r@ == if v.stage is Ready {
                    settled(v)
                } else {
                    v
                }
            }),
    {
        if self.options.dry_run {
            return self.pass();
        }
        match text {
            None => self.pass(),
            Some(text) => {
                let bytes = encode(text.as_str(), encoding);
                let mut r = self;
                let log = r.log;
                r.log = match log {
                    Some(l) => {
                        let mut l = l;
                        match undo {
                            Some(entry) => {
                                record_undo(
                                    &mut l,
                                    now,
                                    r.files[r.file].path.as_str(),
                                    &entry,
                                    encoding,
                                );
                            },
                            None => {},
                        }
                        Some(l)
                    },
                    None => None,
                };
                if r.options.backup {
                    r.stage = JsonStage::BackingUp { bytes };
                    r
                } else {
                    r.store(bytes)
                }
            },
        }
    }

    fn edit(self, output: EngineOutput, encoding: SourceEncoding, now: &str) -> (r: JsonRun<'a>)
        requires
            self.sized(),
            self.at_file(),
        ensures
            r.valid(),
            ({
                let v = edited(self@, output@, encoding, now@);
                r@ == if v.stage is Ready {
                    settled(v)
                } else {
                    v
                }
            }),
    {
        let ghost v = self@;
        let mut r = self;
        let EngineOutput { text, changes, undo } = output;
        let file = r.file;
        match &text {
            Some(t) => {
                let ghost before = r.cache@;
                let copy = t.clone();
                r.cache.set(file, Some((copy, encoding)));
                proof {
                    assert(cache_view(r.cache@) =~= cache_view(before).update(
                        file as int,
                        Some((t@, encoding)),
                    ));
                }
            },
            None => {},
        }
        if changes.len() == 0 {
            return r.pass();
        }
        r.summary = Summary {
            files_matched: add_counts(r.summary.files_matched, 1),
            files_modified: r.summary.files_modified,
            total_replacements: add_counts(r.summary.total_replacements, changes.len()),
        };
        let result = build_op_result(r.op, r.files[file].path.as_str(), changes);
        let ghost before = r.results@;
        r.results.push(result);
        proof {
            assert(diff::results_view(r.results@) =~= diff::results_view(before).push(result@));
        }
        if r.jsonl {
            r.stage = JsonStage::Reporting { text, undo, encoding };
            r
        } else {
            r.save(text, undo, encoding, now)
        }
    }

    fn apply(self, text: &str, encoding: SourceEncoding, now: &str) -> (r: JsonRun<'a>)
        requires
            self.sized(),
            self.at_file(),
        ensures
            r.valid(),
            ({
                let v = applied(self@, text@, encoding, now@);
                r@ == if v.stage is Ready {
                    settled(v)
                } else {
                    v
                }
            }),
    {
        let output = match &self.matcher {
            Some(m) => engine::apply(
                text,
                &self.ops[self.op].0,
                m,
                self.options.range_spec(),
                JSON_CONTEXT_LINES,
            ),
            None => Ok(crate::edits::unchanged()),
        };
        match output {
            Ok(o) => self.edit(o, encoding, now),
            Err(e) => self.pass_with(e),
        }
    }

    /// What the run wants done.
    pub fn action(&self) -> (a: JsonStep)
        ensures
            match self@.stage {
                JsonStageView::Locking => a == JsonStep::Lock(self@.file as usize),
                JsonStageView::Reading => a == JsonStep::Read(self@.file as usize),
                JsonStageView::Reusing => a == JsonStep::Reuse(self@.file as usize),
                JsonStageView::Reporting { .. } => a is Report,
                JsonStageView::BackingUp { .. } => a == JsonStep::Backup(self@.file as usize),
                JsonStageView::Writing { bytes } => a matches JsonStep::Write(k, b) && k
                    == self@.file && b@ == bytes,
                JsonStageView::Committing => a is Commit,
                JsonStageView::Finished => a is Finish,
                JsonStageView::Ready => a is Finish,
            },
    {
        match &self.stage {
            JsonStage::Locking => JsonStep::Lock(self.file),
            JsonStage::Reading => JsonStep::Read(self.file),
            JsonStage::Reusing => JsonStep::Reuse(self.file),
            JsonStage::Reporting { .. } => JsonStep::Report,
            JsonStage::BackingUp { .. } => JsonStep::Backup(self.file),
            JsonStage::Writing { bytes } => JsonStep::Write(
                self.file,
                vstd::slice::slice_to_vec(bytes.as_slice()),
            ),
            JsonStage::Committing => JsonStep::Commit,
            JsonStage::Finished => JsonStep::Finish,
            JsonStage::Ready => JsonStep::Finish,
        }
    }

    fn lock_answered(self, event: JsonEvent, Ghost(now): Ghost<Seq<char>>) -> (r: JsonRun<'a>)
        requires
            self.sized(),
            self.at_file(),
        ensures
            r.valid(),
            r@ == answered(JsonView { stage: JsonStageView::Locking, ..self@ }, event@, now),
    {
        let mut r = self;
        match event {
            JsonEvent::Done => {
                let file = r.file;
                r.locked.set(file, true);
                r.open()
            },
            JsonEvent::Failed(e) => r.write_failed("lock failed: ", e.as_str()),
            _ => {
                r.stage = JsonStage::Locking;
                r
            },
        }
    }

    fn read_answered(self, event: JsonEvent, now: &str) -> (r: JsonRun<'a>)
        requires
            self.sized(),
            self.at_file(),
        ensures
            r.valid(),
            r@ == answered(JsonView { stage: JsonStageView::Reading, ..self@ }, event@, now@),
    {
        let mut r = self;
        match event {
            JsonEvent::Bytes(b) => match decode(b) {
                Ok((text, encoding)) => r.apply(text.as_str(), encoding, now),
                Err(e) => {
                    let path = r.files[r.file].path.as_str();
                    let e = RipsedError::write_failed(path, e.message().as_str());
                    r.pass_with(e)
                },
            },
            JsonEvent::Denied => {
                let e = RipsedError::permission_denied(r.files[r.file].path.as_str());
                r.pass_with(e)
            },
            JsonEvent::Failed(e) => {
                let path = r.files[r.file].path.as_str();
                let e = RipsedError::write_failed(path, e.as_str());
                r.pass_with(e)
            },
            JsonEvent::Done => {
                r.stage = JsonStage::Reading;
                r
            },
        }
    }

    fn reuse_answered(self, event: JsonEvent, now: &str) -> (r: JsonRun<'a>)
        requires
            self.sized(),
            self.at_file(),
            self.cache@[self.file as int] is Some,
        ensures
            r.valid(),
            r@ == answered(JsonView { stage: JsonStageView::Reusing, ..self@ }, event@, now@),
    {
        let mut r = self;
        match event {
            JsonEvent::Done => {
                let (text, encoding) = match &r.cache[r.file] {
                    Some((t, e)) => (t.clone(), *e),
                    None => (String::new(), SourceEncoding::Utf8),
                };
                r.apply(text.as_str(), encoding, now)
            },
            _ => {
                r.stage = JsonStage::Reusing;
                r
            },
        }
    }

    fn backup_answered(self, bytes: Vec<u8>, event: JsonEvent, Ghost(now): Ghost<Seq<char>>) -> (r:
        JsonRun<'a>)
        requires
            self.sized(),
            self.at_file(),
        ensures
            r.valid(),
            r@ == answered(
                JsonView { stage: JsonStageView::BackingUp { bytes: bytes@ }, ..self@ },
                event@,
                now,
            ),
    {
        let mut r = self;
        match event {
            JsonEvent::Done => r.store(bytes),
            JsonEvent::Failed(e) => r.write_failed("backup failed: ", e.as_str()),
            _ => {
                r.stage = JsonStage::BackingUp { bytes };
                r
            },
        }
    }

    fn write_answered(self, bytes: Vec<u8>, event: JsonEvent, Ghost(now): Ghost<Seq<char>>) -> (r:
        JsonRun<'a>)
        requires
            self.sized(),
            self.at_file(),
        ensures
            r.valid(),
            r@ == answered(
                JsonView { stage: JsonStageView::Writing { bytes: bytes@ }, ..self@ },
                event@,
                now,
            ),
    {
        let mut r = self;
        match event {
            JsonEvent::Done => {
                r.summary = Summary {
                    files_matched: r.summary.files_matched,
                    files_modified: add_counts(r.summary.files_modified, 1),
                    total_replacements: r.summary.total_replacements,
                };
                r.pass()
            },
            JsonEvent::Failed(e) => {
                let path = r.files[r.file].path.as_str();
                let e = RipsedError::write_failed(path, e.as_str());
                r.pass_with(e)
            },
            _ => {
                r.stage = JsonStage::Writing { bytes };
                r
            },
        }
    }

    fn commit_answered(self, event: JsonEvent, Ghost(now): Ghost<Seq<char>>) -> (r: JsonRun<'a>)
        requires
            self.sized(),
            self.stage is Finished,
        ensures
            r.valid(),
            r@ == answered(JsonView { stage: JsonStageView::Committing, ..self@ }, event@, now),
    {
        let mut r = self;
        match event {
            JsonEvent::Done => {
                r.summary = Summary {
                    files_matched: r.summary.files_matched,
                    files_modified: add_counts(r.summary.files_modified, r.pending.len()),
                    total_replacements: r.summary.total_replacements,
                };
                r
            },
            JsonEvent::Failed(e) => {
                let mut text = owned("Atomic batch write failed: ");
                text.append(e.as_str());
                let e = RipsedError::internal_error(text.as_str());
                let ghost before = r.errors@;
                r.errors.push(e);
                proof {
                    assert(errors_view(r.errors@) =~= errors_view(before).push(e@));
                }
                r.log = None;
                r
            },
            _ => {
                r.stage = JsonStage::Committing;
                r
            },
        }
    }

    /// Tells the run how its last step went, and what time it is.
    pub fn answer(self, event: JsonEvent, now: &str) -> (r: JsonRun<'a>)
        requires
            self.valid(),
        ensures
            r.valid(),
            r@ == answered(self@, event@, now@),
    {
        let ghost was = self@;
        let mut r = self;
        let mut stage = JsonStage::Finished;
        std::mem::swap(&mut r.stage, &mut stage);
        proof {
            assert((JsonView { stage: stage.shown(), ..r@ }) == was);
        }
        match stage {
            JsonStage::Locking => r.lock_answered(event, Ghost(now@)),
            JsonStage::Reading => r.read_answered(event, now),
            JsonStage::Reusing => r.reuse_answered(event, now),
            JsonStage::Reporting { text, undo, encoding } => match event {
                JsonEvent::Done => r.save(text, undo, encoding, now),
                _ => {
                    r.stage = JsonStage::Reporting { text, undo, encoding };
                    r
                },
            },
            JsonStage::BackingUp { bytes } => r.backup_answered(bytes, event, Ghost(now@)),
            JsonStage::Writing { bytes } => r.write_answered(bytes, event, Ghost(now@)),
            JsonStage::Committing => r.commit_answered(event, Ghost(now@)),
            JsonStage::Finished => r,
            JsonStage::Ready => r,
        }
    }

    /// The last result.
    pub fn last_result(&self) -> (r: Option<&OpResult>)
        ensures
            match r {
                Some(result) => self@.results.len() > 0 && result@ == self@.results.last(),
                None => self@.results.len() == 0,
            },
    {
        if self.results.len() > 0 {
            Some(&self.results[self.results.len() - 1])
        } else {
            None
        }
    }

    /// What is to be written when all operations are done.
    pub fn pending(&self) -> (r: &[PendingWrite])
        ensures
            pending_view(r@) == self@.pending,
    {
        self.pending.as_slice()
    }

    /// What the run came to.
    pub fn into_report(self) -> (r: JsonReport)
        ensures
            summary_view(r.summary) == self@.summary,
            diff::results_view(r.results@) == self@.results,
            errors_view(r.errors@) == self@.errors,
            run::log_view(r.log) == self@.log,
    {
        JsonReport {
            summary: self.summary,
            results: self.results,
            errors: self.errors,
            log: self.log,
        }
    }
}

/// What a run came to.
pub struct JsonReport {
    pub summary: Summary,
    pub results: Vec<OpResult>,
    pub errors: Vec<RipsedError>,
    /// The undo log, where it is to be saved.
    pub log: Option<UndoLog>,
}

impl JsonReport {
    /// Whether nothing went wrong.
    pub fn success(&self) -> (b: bool)
        ensures
            b == (self.errors@.len() == 0),
    {
        self.errors.len() == 0
    }

    /// How the run ends: with an error where there was one, and without a
    /// match where no file was matched.
    pub fn exit(&self) -> (r: Result<(), i32>)
        ensures
            r == run::exit_of(self.errors@.len() > 0, self.summary.files_matched as int),
    {
        if self.errors.len() > 0 {
            Err(EXIT_ERROR)
        } else if self.summary.files_matched == 0 {
            Err(EXIT_NO_MATCHES)
        } else {
            Ok(())
        }
    }
}

// ---------------------------------------------------------------------------
// Laws
// ---------------------------------------------------------------------------

/// Going on to the next thing changes no text, no result and no file.
proof fn lemma_settled_keeps(v: JsonView)
    ensures
        settled(v).ops == v.ops,
        settled(v).options == v.options,
        settled(v).files == v.files,
        settled(v).cache == v.cache,
        settled(v).locked == v.locked,
        settled(v).summary == v.summary,
        settled(v).results == v.results,
        settled(v).pending == v.pending,
        settled(v).log == v.log,
        v.errors.is_prefix_of(settled(v).errors),
        ({
            let stage = settled(v).stage;
            ||| stage is Locking && !v.options.dry_run
            ||| stage is Reading
            ||| stage is Reusing
            ||| stage is Committing && v.options.atomic && v.pending.len() > 0
            ||| stage is Finished
        }),
        settled(v).stage is Reading ==> v.cache[settled(v).file] is None,
    decreases v.ops.len() - v.op, v.files.len() - v.file,
{
    if v.op < 0 || v.op >= v.ops.len() {
    } else if is_bad(v.ops[v.op]) {
        let w = JsonView {
            errors: v.errors.push(bad_op_error(v.ops[v.op], v.op)),
            op: v.op + 1,
            file: 0,
            ..v
        };
        lemma_settled_keeps(w);
        assert(v.errors.is_prefix_of(w.errors));
        assert(forall|i: int| 0 <= i < v.errors.len() ==> v.errors[i] == w.errors[i]);
        assert(v.errors =~= settled(v).errors.take(v.errors.len() as int));
    } else if v.file < 0 || v.file >= v.files.len() {
        lemma_settled_keeps(JsonView { op: v.op + 1, file: 0, ..v });
    } else if !v.selected[v.op][v.file] {
        lemma_settled_keeps(JsonView { file: v.file + 1, ..v });
    }
}

/// Whether a stage touches the disk other than by reading.
pub open spec fn is_touching(stage: JsonStageView) -> bool {
    stage is Locking || stage is BackingUp || stage is Writing || stage is Committing
}

/// A dry run takes no lock, makes no backup and writes nothing; the undo log
/// stays as it is and no file counts as modified.
pub proof fn law_dry_run_touches_nothing(v: JsonView, event: JsonEventView, now: Seq<char>)
    requires
        v.options.dry_run,
        v.pending.len() == 0,
        !is_touching(v.stage),
    ensures
        !is_touching(answered(v, event, now).stage),
        answered(v, event, now).options == v.options,
        answered(v, event, now).pending.len() == 0,
        answered(v, event, now).log == v.log,
        answered(v, event, now).summary.files_modified == v.summary.files_modified,
{
    lemma_settled_keeps(reacted(v, event, now));
}

/// A step that failed leaves an error, and errors stay: a run in which a lock,
/// a read, a backup, a write or a commit failed ends with an error.
pub proof fn law_failures_are_errors(v: JsonView, event: JsonEventView, now: Seq<char>)
    ensures
        v.errors.is_prefix_of(answered(v, event, now).errors),
        event is Failed && (v.stage is Reading || is_touching(v.stage)) || event is Denied
            && v.stage is Reading ==> answered(v, event, now).errors.len() > v.errors.len()
            && run::exit_of(
            answered(v, event, now).errors.len() > 0,
            answered(v, event, now).summary.files_matched,
        ) == Err::<(), i32>(EXIT_ERROR),
{
    let r = reacted(v, event, now);
    lemma_settled_keeps(r);
    let a = answered(v, event, now);
    assert(r.errors == v.errors || (r.errors.len() == v.errors.len() + 1 && r.errors.drop_last()
        =~= v.errors));
    assert(r.errors.is_prefix_of(a.errors));
    assert forall|i: int| 0 <= i < v.errors.len() implies v.errors[i] == a.errors[i] by {
        assert(r.errors[i] == v.errors[i]);
        assert(a.errors.take(r.errors.len() as int)[i] == r.errors[i]);
    }
    assert(v.errors =~= a.errors.take(v.errors.len() as int));
}

/// Whether a run got to `w` from `v` without writing a file.
spec fn held_back(v: JsonView, w: JsonView) -> bool {
    &&& !(w.stage is Writing)
    &&& w.options == v.options
    &&& w.summary.files_modified == v.summary.files_modified
    &&& v.pending.is_prefix_of(w.pending)
}

proof fn lemma_storing_holds_back(v: JsonView, bytes: Seq<u8>)
    requires
        v.options.atomic,
    ensures
        held_back(v, storing(v, bytes)),
{
    let w = storing(v, bytes);
    assert(w.pending.take(v.pending.len() as int) =~= v.pending);
}

proof fn lemma_saving_holds_back(
    v: JsonView,
    text: Option<Seq<char>>,
    undo: Option<Seq<char>>,
    e: SourceEncoding,
    now: Seq<char>,
)
    requires
        v.options.atomic,
    ensures
        held_back(v, saving(v, text, undo, e, now)),
{
    assert(v.pending =~= v.pending.take(v.pending.len() as int));
    if !v.options.dry_run && text is Some && !v.options.backup {
        let recorded = JsonView {
            log: match (v.log, undo) {
                (Some(l), Some(original)) => Some(
                    undo::logged(l, undo::undo_record(now, path_of(v), original, e)),
                ),
                _ => v.log,
            },
            ..v
        };
        lemma_storing_holds_back(recorded, encoding::encoded(text->0, e));
    }
}

proof fn lemma_edited_holds_back(v: JsonView, out: OutputView, e: SourceEncoding, now: Seq<char>)
    requires
        v.options.atomic,
    ensures
        held_back(v, edited(v, out, e, now)),
{
    assert(v.pending =~= v.pending.take(v.pending.len() as int));
    if out.changes.len() > 0 && !v.jsonl {
        let counted = JsonView {
            cache: match out.text {
                Some(text) => v.cache.update(v.file, Some((text, e))),
                None => v.cache,
            },
            summary: SummaryView {
                files_matched: run::capped_sum(v.summary.files_matched, 1),
                total_replacements: run::capped_sum(
                    v.summary.total_replacements,
                    out.changes.len() as int,
                ),
                ..v.summary
            },
            results: v.results.push(
                ResultView { operation_index: v.op, files: seq![(path_of(v), out.changes)] },
            ),
            ..v
        };
        lemma_saving_holds_back(counted, out.text, out.undo, e, now);
    }
}

proof fn lemma_applied_holds_back(v: JsonView, text: Seq<char>, e: SourceEncoding, now: Seq<char>)
    requires
        v.options.atomic,
    ensures
        held_back(v, applied(v, text, e, now)),
{
    assert(v.pending =~= v.pending.take(v.pending.len() as int));
    match engine::apply_result(
        text,
        v.ops[v.op],
        matcher::matcher_of(v.ops[v.op]),
        v.options.range_spec(),
        JSON_CONTEXT_LINES as int,
    ) {
        Err(_) => {},
        Ok(out) => {
            lemma_edited_holds_back(v, out, e, now);
        },
    }
}

proof fn lemma_reacted_holds_back(v: JsonView, event: JsonEventView, now: Seq<char>)
    requires
        v.options.atomic,
        !(v.stage is Writing),
        !(v.stage is Committing),
    ensures
        held_back(v, reacted(v, event, now)),
{
    assert(v.pending =~= v.pending.take(v.pending.len() as int));
    match (v.stage, event) {
        (JsonStageView::Reading, JsonEventView::Bytes(b)) => match encoding::decoded(b) {
            Err(_) => {},
            Ok(text) => {
                lemma_applied_holds_back(v, text, encoding::detected(b), now);
            },
        },
        (JsonStageView::Reusing, JsonEventView::Done) => match v.cache[v.file] {
            Some((text, e)) => {
                lemma_applied_holds_back(v, text, e, now);
            },
            None => {},
        },
        (JsonStageView::Reporting { text, undo, encoding }, JsonEventView::Done) => {
            lemma_saving_holds_back(v, text, undo, encoding, now);
        },
        (JsonStageView::BackingUp { bytes }, JsonEventView::Done) => {
            lemma_storing_holds_back(v, bytes);
        },
        _ => {},
    }
}

/// In an atomic run no file is written before all operations are done: what
/// they make of the files is kept until then.
pub proof fn law_atomic_run_writes_at_the_end(v: JsonView, event: JsonEventView, now: Seq<char>)
    requires
        v.options.atomic,
        !(v.stage is Writing),
    ensures
        !(answered(v, event, now).stage is Writing),
        answered(v, event, now).options == v.options,
        !(v.stage is Committing) ==> answered(v, event, now).summary.files_modified
            == v.summary.files_modified && v.pending.is_prefix_of(answered(v, event, now).pending),
{
    lemma_settled_keeps(reacted(v, event, now));
    if !(v.stage is Committing) {
        lemma_reacted_holds_back(v, event, now);
    }
}

/// A batch that could not be written leaves an error and no undo log to save,
/// and no file counts as modified for it.
pub proof fn law_failed_commit_is_not_undone(v: JsonView, e: Seq<char>, now: Seq<char>)
    requires
        v.stage is Committing,
    ensures
        answered(v, JsonEventView::Failed(e), now).log is None,
        answered(v, JsonEventView::Failed(e), now).stage is Finished,
        answered(v, JsonEventView::Failed(e), now).errors.len() == v.errors.len() + 1,
        answered(v, JsonEventView::Failed(e), now).summary == v.summary,
{
}

/// An operation on a file leaves what is known of every other file as it is,
/// and a file that an operation changed is not read again: operations that
/// follow start from the text that it left.
pub proof fn law_operations_build_on_each_other(v: JsonView, event: JsonEventView, now: Seq<char>, k: int)
    requires
        0 <= v.file < v.cache.len(),
        0 <= k < v.cache.len(),
        v.stage is Reading ==> v.cache[v.file] is None,
    ensures
        k != v.file ==> answered(v, event, now).cache[k] == v.cache[k],
        v.cache[k] is Some ==> answered(v, event, now).cache[k] is Some,
        answered(v, event, now).stage is Reading ==> answered(v, event, now).cache[answered(
            v,
            event,
            now,
        ).file] is None,
{
    lemma_settled_keeps(reacted(v, event, now));
}

// ---------------------------------------------------------------------------
// What is written, kept and told
// ---------------------------------------------------------------------------

/// Whether bytes are a text in an encoding: they are read in that encoding, as
/// that text. (A text in plain UTF-8 that starts with a byte-order mark reads
/// as one that has the mark.)
pub open spec fn are_text(bytes: Seq<u8>, text: Seq<char>, e: SourceEncoding) -> bool {
    e == SourceEncoding::Utf8 && text.len() > 0 && text[0] == '\u{FEFF}' || (encoding::detected(
        bytes,
    ) == e && encoding::decoded(bytes) == Ok::<Seq<char>, encoding::DecodeErrorView>(text))
}

/// What the operation that a run is at makes of a text.
pub open spec fn made_of(v: JsonView, text: Seq<char>) -> Result<OutputView, ErrorView> {
    engine::apply_result(
        text,
        v.ops[v.op],
        matcher::matcher_of(v.ops[v.op]),
        v.options.range_spec(),
        3,
    )
}

/// Whether a run went from `v` to `w` to have a text in an encoding stand in
/// the file that it is at: it backs the file up first where that is asked for,
/// keeps the bytes for the end where the run is atomic, and writes them at once
/// otherwise.
pub open spec fn sets_out_to_write(v: JsonView, w: JsonView, text: Seq<char>, e: SourceEncoding) -> bool {
    if v.options.backup {
        &&& w.stage matches JsonStageView::BackingUp { bytes } && are_text(bytes, text, e)
        &&& w.file == v.file
        &&& w.pending == v.pending
    } else {
        sets_out_to_store(v, w, text, e)
    }
}

/// The same behind the backup.
pub open spec fn sets_out_to_store(v: JsonView, w: JsonView, text: Seq<char>, e: SourceEncoding) -> bool {
    if v.options.atomic {
        &&& w.pending.len() == v.pending.len() + 1
        &&& w.pending.drop_last() == v.pending
        &&& w.pending.last().0 == v.file
        &&& are_text(w.pending.last().1, text, e)
    } else {
        &&& w.stage matches JsonStageView::Writing { bytes } && are_text(bytes, text, e)
        &&& w.file == v.file
        &&& w.pending == v.pending
    }
}

proof fn lemma_encoded_is_text(text: Seq<char>, e: SourceEncoding)
    ensures
        are_text(encoding::encoded(text, e), text, e),
{
    if !(e == SourceEncoding::Utf8 && text.len() > 0 && text[0] == '\u{FEFF}') {
        encoding::law_decode_of_encode(text, e);
    }
}

/// Whether a run has recorded what takes an edit back: that the file of this
/// path held this text, in this encoding, at this time.
pub open spec fn has_recorded(
    before: Option<LogView>,
    log: Option<LogView>,
    path: Seq<char>,
    original: Option<Seq<char>>,
    e: SourceEncoding,
    now: Seq<char>,
) -> bool {
    match before {
        None => log is None,
        Some(b) => log matches Some(l) && l.max_entries == b.max_entries && match original {
            None => l == b,
            Some(text) => b.max_entries > 0 ==> {
                &&& l.records.len() > 0
                &&& l.records.last().timestamp == now
                &&& l.records.last().file_path == path
                &&& l.records.last().original_text == text
                &&& undo::encoding_of_record(l.records.last().encoding) == e
                &&& l.records.drop_last().is_suffix_of(b.records)
                &&& b.records.len() < b.max_entries ==> l.records.drop_last() == b.records
            },
        },
    }
}

proof fn lemma_recorded(
    b: LogView,
    path: Seq<char>,
    original: Seq<char>,
    e: SourceEncoding,
    now: Seq<char>,
)
    ensures
        has_recorded(
            Some(b),
            Some(undo::logged(b, undo::undo_record(now, path, original, e))),
            path,
            Some(original),
            e,
            now,
        ),
{
    let record = undo::undo_record(now, path, original, e);
    let l = undo::logged(b, record);
    encoding::law_tag_round_trip(e);
    if b.max_entries > 0 {
        let all = b.records.push(record);
        if all.len() > b.max_entries {
            let d = all.len() - b.max_entries;
            assert(l.records == all.skip(d));
            assert(l.records.last() == record);
            assert(l.records.drop_last() =~= b.records.skip(d));
            assert(b.records.skip(b.records.len() - l.records.drop_last().len())
                =~= l.records.drop_last());
        } else {
            assert(l.records == all);
            assert(l.records.drop_last() =~= b.records);
            assert(b.records.skip(0) =~= b.records);
        }
    }
}

proof fn lemma_saving_writes(
    v: JsonView,
    text: Seq<char>,
    undo: Option<Seq<char>>,
    e: SourceEncoding,
    now: Seq<char>,
)
    requires
        !v.options.dry_run,
    ensures
        ({
            let s = saving(v, Some(text), undo, e, now);
            let w = if s.stage is Ready {
                settled(s)
            } else {
                s
            };
            &&& sets_out_to_write(v, w, text, e)
            &&& has_recorded(v.log, w.log, path_of(v), undo, e, now)
            &&& w.results == v.results
            &&& w.summary == v.summary
            &&& w.cache == v.cache
            &&& v.errors.is_prefix_of(w.errors)
        }),
{
    let s = saving(v, Some(text), undo, e, now);
    lemma_settled_keeps(s);
    lemma_encoded_is_text(text, e);
    assert(v.errors.is_prefix_of(v.errors)) by {
        assert(v.errors.take(v.errors.len() as int) =~= v.errors);
    }
    if v.log is Some && undo is Some {
        lemma_recorded(v.log->0, path_of(v), undo->0, e, now);
    }
    if !v.options.backup && v.options.atomic {
        assert(s.pending.drop_last() =~= v.pending);
    }
}

/// What a run does with the text of the file that it is at, which it read in
/// some encoding. An operation that fails is an error. One that changes nothing
/// is passed over. One that changes something is counted and put among the
/// results, with the path and the number of the operation; later operations
/// start from the new text. A dry run leaves it at that. Any other run records
/// what takes the edit back, and sets out to have the new text stand in the
/// file in the encoding that the file was read in.
spec fn carries_out(v: JsonView, w: JsonView, text: Seq<char>, e: SourceEncoding, now: Seq<char>) -> bool {
    match made_of(v, text) {
        Err(error) => {
            &&& w.errors.len() > v.errors.len()
            &&& w.errors[v.errors.len() as int] == error
            &&& w.pending == v.pending
            &&& w.results == v.results
            &&& w.summary == v.summary
            &&& w.log == v.log
            &&& w.cache == v.cache
        },
        Ok(out) => if out.changes.len() == 0 {
            &&& w.pending == v.pending
            &&& w.results == v.results
            &&& w.summary == v.summary
            &&& w.log == v.log
            &&& !(w.stage is Writing || w.stage is BackingUp || w.stage is Reporting)
        } else {
            &&& w.results.len() == v.results.len() + 1
            &&& w.results.drop_last() == v.results
            &&& w.results.last().operation_index == v.op
            &&& w.results.last().files == seq![(path_of(v), out.changes)]
            &&& w.summary.files_modified == v.summary.files_modified
            &&& w.summary.files_matched == run::capped_sum(v.summary.files_matched, 1)
            &&& w.summary.total_replacements == run::capped_sum(
                v.summary.total_replacements,
                out.changes.len() as int,
            )
            &&& out.text matches Some(t) ==> w.cache[v.file] == Some((t, e))
            &&& if v.jsonl {
                &&& w.stage == (JsonStageView::Reporting {
                    text: out.text,
                    undo: out.undo,
                    encoding: e,
                })
                &&& w.file == v.file
                &&& w.op == v.op
                &&& w.pending == v.pending
                &&& w.log == v.log
            } else if v.options.dry_run || out.text is None {
                &&& w.pending == v.pending
                &&& w.log == v.log
                &&& !(w.stage is Writing || w.stage is BackingUp)
            } else {
                &&& sets_out_to_write(v, w, out.text->0, e)
                &&& has_recorded(v.log, w.log, path_of(v), out.undo, e, now)
            }
        },
    }
}

proof fn lemma_carries_out(v: JsonView, text: Seq<char>, e: SourceEncoding, now: Seq<char>)
    requires
        0 <= v.file < v.cache.len(),
    ensures
        ({
            let a = applied(v, text, e, now);
            let w = if a.stage is Ready {
                settled(a)
            } else {
                a
            };
            carries_out(v, w, text, e, now)
        }),
{
    let a = applied(v, text, e, now);
    lemma_settled_keeps(a);
    match made_of(v, text) {
        Err(error) => {
            let pushed = v.errors.push(error);
            assert(a.errors == pushed);
            assert(settled(a).errors.take(pushed.len() as int)[v.errors.len() as int] == error);
        },
        Ok(out) => {
            if out.changes.len() > 0 {
                let counted = JsonView {
                    cache: match out.text {
                        Some(t) => v.cache.update(v.file, Some((t, e))),
                        None => v.cache,
                    },
                    summary: SummaryView {
                        files_matched: run::capped_sum(v.summary.files_matched, 1),
                        total_replacements: run::capped_sum(
                            v.summary.total_replacements,
                            out.changes.len() as int,
                        ),
                        ..v.summary
                    },
                    results: v.results.push(
                        ResultView {
                            operation_index: v.op,
                            files: seq![(path_of(v), out.changes)],
                        },
                    ),
                    ..v
                };
                assert(counted.results.drop_last() =~= v.results);
                if !v.jsonl {
                    assert(a == saving(counted, out.text, out.undo, e, now));
                    if !v.options.dry_run && out.text is Some {
                        lemma_saving_writes(counted, out.text->0, out.undo, e, now);
                    } else {
                        assert(a.stage is Ready);
                    }
                }
            } else {
                assert(a.stage is Ready);
            }
        },
    }
}

/// A file that was read is written back in the encoding that it was read in:
/// the bytes that a run sets out to write, or keeps for the end, read in that
/// encoding as the text that its operation gives. What can be taken back is
/// recorded with the text that was read, so that an undo gives the bytes that
/// were read.
pub proof fn law_read_file_is_written_back_alike(v: JsonView, bytes: Seq<u8>, now: Seq<char>)
    requires
        v.stage is Reading,
        0 <= v.file < v.cache.len(),
    ensures
        ({
            let w = answered(v, JsonEventView::Bytes(bytes), now);
            match encoding::decoded(bytes) {
                Err(_) => {
                    &&& w.errors.len() > v.errors.len()
                    &&& w.pending == v.pending
                    &&& w.results == v.results
                    &&& w.log == v.log
                },
                Ok(text) => match made_of(v, text) {
                    Err(error) => {
                        &&& w.errors.len() > v.errors.len()
                        &&& w.errors[v.errors.len() as int] == error
                        &&& w.pending == v.pending
                        &&& w.results == v.results
                        &&& w.log == v.log
                    },
                    Ok(out) => {
                        let e = encoding::detected(bytes);
                        &&& out.changes.len() == 0 ==> {
                            &&& w.pending == v.pending
                            &&& w.results == v.results
                            &&& w.log == v.log
                            &&& !(w.stage is Writing || w.stage is BackingUp
                                || w.stage is Reporting)
                        }
                        &&& out.changes.len() > 0 ==> {
                            &&& w.results.len() == v.results.len() + 1
                            &&& w.results.drop_last() == v.results
                            &&& w.results.last().operation_index == v.op
                            &&& w.results.last().files == seq![(path_of(v), out.changes)]
                            &&& w.summary.files_matched == run::capped_sum(
                                v.summary.files_matched,
                                1,
                            )
                            &&& w.summary.total_replacements == run::capped_sum(
                                v.summary.total_replacements,
                                out.changes.len() as int,
                            )
                            &&& out.text matches Some(t) ==> w.cache[v.file] == Some((t, e))
                        }
                        &&& out.changes.len() > 0 && v.jsonl ==> w.stage == (
                        JsonStageView::Reporting { text: out.text, undo: out.undo, encoding: e })
                        &&& out.changes.len() > 0 && !v.jsonl && !v.options.dry_run && out.text
                            is Some ==> {
                            &&& sets_out_to_write(v, w, out.text->0, e)
                            &&& has_recorded(v.log, w.log, path_of(v), out.undo, e, now)
                        }
                        &&& v.options.dry_run ==> w.pending == v.pending && w.log == v.log && !(
                        w.stage is Writing || w.stage is BackingUp)
                    },
                },
            }
        }),
{
    let w = answered(v, JsonEventView::Bytes(bytes), now);
    lemma_settled_keeps(reacted(v, JsonEventView::Bytes(bytes), now));
    match encoding::decoded(bytes) {
        Err(_) => {},
        Ok(text) => {
            lemma_carries_out(v, text, encoding::detected(bytes), now);
        },
    }
}

/// The next operation on a file starts from the text that the last one left,
/// and writes in the encoding that the file was read in.
pub proof fn law_next_operation_goes_on(v: JsonView, now: Seq<char>)
    requires
        v.stage is Reusing,
        0 <= v.file < v.cache.len(),
        v.cache[v.file] is Some,
    ensures
        ({
            let w = answered(v, JsonEventView::Done, now);
            let (text, e) = v.cache[v.file]->0;
            match made_of(v, text) {
                Err(error) => w.errors.len() > v.errors.len() && w.errors[v.errors.len() as int]
                    == error && w.pending == v.pending && w.results == v.results && w.log == v.log,
                Ok(out) => {
                    &&& out.changes.len() == 0 ==> {
                        &&& w.pending == v.pending
                        &&& w.results == v.results
                        &&& w.log == v.log
                        &&& !(w.stage is Writing || w.stage is BackingUp || w.stage is Reporting)
                    }
                    &&& out.changes.len() > 0 ==> {
                        &&& w.results.len() == v.results.len() + 1
                        &&& w.results.drop_last() == v.results
                        &&& w.results.last().operation_index == v.op
                        &&& w.results.last().files == seq![(path_of(v), out.changes)]
                        &&& out.text matches Some(t) ==> w.cache[v.file] == Some((t, e))
                    }
                    &&& out.changes.len() > 0 && v.jsonl ==> w.stage == (JsonStageView::Reporting {
                        text: out.text,
                        undo: out.undo,
                        encoding: e,
                    })
                    &&& out.changes.len() > 0 && !v.jsonl && !v.options.dry_run && out.text is Some
                        ==> {
                        &&& sets_out_to_write(v, w, out.text->0, e)
                        &&& has_recorded(v.log, w.log, path_of(v), out.undo, e, now)
                    }
                },
            }
        }),
{
    let (text, e) = v.cache[v.file]->0;
    lemma_carries_out(v, text, e, now);
}

/// A result that was reported is written as it would be at once: the text in
/// the encoding that goes with it, with what takes it back recorded; and behind
/// a backup the bytes are those that were meant to be written before it.
pub proof fn law_reported_text_is_written(v: JsonView, now: Seq<char>)
    ensures
        v.stage matches JsonStageView::Reporting { text, undo, encoding } ==> {
            let w = answered(v, JsonEventView::Done, now);
            &&& text is Some && !v.options.dry_run ==> {
                &&& sets_out_to_write(v, w, text->0, encoding)
                &&& has_recorded(v.log, w.log, path_of(v), undo, encoding, now)
            }
            &&& text is None || v.options.dry_run ==> w.pending == v.pending && w.log == v.log
        },
        v.stage matches JsonStageView::BackingUp { bytes } ==> {
            let w = answered(v, JsonEventView::Done, now);
            &&& v.options.atomic ==> {
                &&& w.pending.len() == v.pending.len() + 1
                &&& w.pending.drop_last() == v.pending
                &&& w.pending.last() == (v.file, bytes)
            }
            &&& !v.options.atomic ==> w.stage == (JsonStageView::Writing { bytes }) && w.pending
                == v.pending && w.file == v.file
            &&& w.log == v.log
            &&& w.summary == v.summary
        },
{
    match v.stage {
        JsonStageView::Reporting { text, undo, encoding } => {
            lemma_settled_keeps(reacted(v, JsonEventView::Done, now));
            if text is Some && !v.options.dry_run {
                lemma_saving_writes(v, text->0, undo, encoding, now);
            }
        },
        JsonStageView::BackingUp { bytes } => {
            let s = storing(v, bytes);
            lemma_settled_keeps(s);
            if v.options.atomic {
                assert(s.pending.drop_last() =~= v.pending);
            }
        },
        _ => {},
    }
}

/// A file that was written counts as modified, once; a batch that was written
/// counts all its files.
pub proof fn law_written_files_are_counted(v: JsonView, now: Seq<char>)
    ensures
        v.stage is Writing ==> answered(v, JsonEventView::Done, now).summary.files_modified
            == run::capped_sum(v.summary.files_modified, 1),
        v.stage is Committing ==> answered(v, JsonEventView::Done, now).summary.files_modified
            == run::capped_sum(v.summary.files_modified, v.pending.len() as int) && answered(
            v,
            JsonEventView::Done,
            now,
        ).log == v.log && answered(v, JsonEventView::Done, now).errors == v.errors && answered(
            v,
            JsonEventView::Done,
            now,
        ).stage is Finished,
        v.stage is Writing || v.stage is Committing ==> {
            let w = answered(v, JsonEventView::Done, now);
            &&& w.summary.files_matched == v.summary.files_matched
            &&& w.summary.total_replacements == v.summary.total_replacements
            &&& w.results == v.results
            &&& w.pending == v.pending
        },
{
    lemma_settled_keeps(reacted(v, JsonEventView::Done, now));
}

/// Whether an operation does nothing to a file: its pattern does not compile, or
/// it is not for the file.
pub open spec fn is_passed_over(v: JsonView, op: int, file: int) -> bool {
    is_bad(v.ops[op]) || !v.selected[op][file]
}

/// Whether one pair of an operation and a file comes before another.
pub open spec fn comes_before(op: int, file: int, other_op: int, other_file: int) -> bool {
    op < other_op || op == other_op && file < other_file
}

/// A run goes on to the next operation on a file: operation by operation, and
/// for each file by file. It passes over no pair of an operation that compiles
/// and a file that it is for, and it ends, or commits, when there is none left.
pub proof fn law_run_passes_over_nothing(v: JsonView, op: int, file: int)
    requires
        0 <= v.op,
        0 <= v.file,
        0 <= op < v.ops.len(),
        0 <= file < v.files.len(),
        !comes_before(op, file, v.op, v.file),
    ensures
        ({
            let w = settled(v);
            &&& w.stage is Locking || w.stage is Reading || w.stage is Reusing ==> {
                &&& 0 <= w.op < v.ops.len()
                &&& 0 <= w.file < v.files.len()
                &&& !is_passed_over(v, w.op, w.file)
                &&& comes_before(op, file, w.op, w.file) ==> is_passed_over(v, op, file)
            }
            &&& w.stage is Committing || w.stage is Finished ==> is_passed_over(v, op, file)
            &&& w.stage is Locking ==> !v.options.dry_run && !v.locked[w.file]
            &&& w.stage is Reading || w.stage is Reusing ==> v.options.dry_run || v.locked[w.file]
            &&& w.stage is Reading ==> v.cache[w.file] is None
            &&& w.stage is Reusing ==> v.cache[w.file] is Some
        }),
    decreases v.ops.len() - v.op, v.files.len() - v.file,
{
    if v.op >= v.ops.len() {
    } else if is_bad(v.ops[v.op]) {
        let w = JsonView {
            errors: v.errors.push(bad_op_error(v.ops[v.op], v.op)),
            op: v.op + 1,
            file: 0,
            ..v
        };
        if op > v.op {
            law_run_passes_over_nothing(w, op, file);
        } else {
            lemma_settled_goes_on(w);
        }
    } else if v.file >= v.files.len() {
        let w = JsonView { op: v.op + 1, file: 0, ..v };
        law_run_passes_over_nothing(w, op, file);
    } else if !v.selected[v.op][v.file] {
        let w = JsonView { file: v.file + 1, ..v };
        if op == v.op && file == v.file {
            lemma_settled_goes_on(w);
        } else {
            law_run_passes_over_nothing(w, op, file);
        }
    }
}

proof fn lemma_settled_goes_on(v: JsonView)
    requires
        0 <= v.op,
        0 <= v.file,
    ensures
        ({
            let w = settled(v);
            &&& w.stage is Locking || w.stage is Reading || w.stage is Reusing ==> {
                &&& 0 <= w.op < v.ops.len()
                &&& 0 <= w.file < v.files.len()
                &&& !is_passed_over(v, w.op, w.file)
                &&& !comes_before(w.op, w.file, v.op, v.file)
            }
            &&& w.stage is Locking ==> !v.options.dry_run && !v.locked[w.file]
            &&& w.stage is Reading || w.stage is Reusing ==> v.options.dry_run || v.locked[w.file]
            &&& w.stage is Reading ==> v.cache[w.file] is None
            &&& w.stage is Reusing ==> v.cache[w.file] is Some
        }),
    decreases v.ops.len() - v.op, v.files.len() - v.file,
{
    if v.op >= v.ops.len() {
    } else if is_bad(v.ops[v.op]) {
        lemma_settled_goes_on(
            JsonView {
                errors: v.errors.push(bad_op_error(v.ops[v.op], v.op)),
                op: v.op + 1,
                file: 0,
                ..v
            },
        );
    } else if v.file >= v.files.len() {
        lemma_settled_goes_on(JsonView { op: v.op + 1, file: 0, ..v });
    } else if !v.selected[v.op][v.file] {
        lemma_settled_goes_on(JsonView { file: v.file + 1, ..v });
    }
}

/// A run with nothing left to do writes what it kept, all at once, where it is
/// atomic and kept something, and is over otherwise. Operations that do not
/// compile leave an error each.
pub proof fn law_run_ends_with_a_commit(v: JsonView)
    ensures
        ({
            let w = settled(v);
            &&& w.stage is Committing ==> v.options.atomic && v.pending.len() > 0
            &&& w.stage is Finished ==> !(v.options.atomic && v.pending.len() > 0)
            &&& w.errors.len() >= v.errors.len()
            &&& w.stage is Finished || w.stage is Committing ==> forall|op: int|
                v.op <= op < v.ops.len() && 0 <= v.op && #[trigger] is_bad(v.ops[op]) ==> exists|k:
                    int|
                    v.errors.len() <= k < w.errors.len() && #[trigger] w.errors[k].operation_index
                        == Some(op as usize)
        }),
    decreases v.ops.len() - v.op, v.files.len() - v.file,
{
    lemma_settled_keeps(v);
    let w = settled(v);
    if v.op < 0 || v.op >= v.ops.len() {
    } else if is_bad(v.ops[v.op]) {
        let u = JsonView {
            errors: v.errors.push(bad_op_error(v.ops[v.op], v.op)),
            op: v.op + 1,
            file: 0,
            ..v
        };
        law_run_ends_with_a_commit(u);
        lemma_settled_keeps(u);
        assert(w.errors.take(u.errors.len() as int)[v.errors.len() as int]
            == u.errors[v.errors.len() as int]);
        assert(w.errors[v.errors.len() as int].operation_index == Some(v.op as usize));
        if w.stage is Finished || w.stage is Committing {
            assert forall|op: int|
                v.op <= op < v.ops.len() && 0 <= v.op && #[trigger] is_bad(
                    v.ops[op],
                ) implies exists|k: int|
                v.errors.len() <= k < w.errors.len() && #[trigger] w.errors[k].operation_index
                    == Some(op as usize) by {
                if op > v.op {
                    let k = choose|k: int|
                        u.errors.len() <= k < w.errors.len()
                            && #[trigger] w.errors[k].operation_index == Some(op as usize);
                    assert(w.errors[k].operation_index == Some(op as usize));
                }
            }
        }
    } else if v.file < 0 || v.file >= v.files.len() {
        let u = JsonView { op: v.op + 1, file: 0, ..v };
        law_run_ends_with_a_commit(u);
    } else if !v.selected[v.op][v.file] {
        law_run_ends_with_a_commit(JsonView { file: v.file + 1, ..v });
    }
}

/// A run starts with nothing done: no result, no error, nothing to write and no
/// file read or locked; it is about the operations, options and files that it
/// is given.
pub proof fn law_run_starts_with_nothing(
    ops: Seq<OpView>,
    options: OptionsView,
    files: Seq<FileName>,
    jsonl: bool,
    selected: Seq<Seq<bool>>,
    log: Option<LogView>,
)
    ensures
        ({
            let w = json_start(ops, options, files, jsonl, selected, log);
            &&& w.ops == ops
            &&& w.options == options
            &&& w.files == files
            &&& w.results.len() == 0
            &&& w.pending.len() == 0
            &&& w.log == log
            &&& w.summary.files_matched == 0
            &&& w.summary.files_modified == 0
            &&& w.summary.total_replacements == 0
            &&& w.cache.len() == files.len()
            &&& w.locked.len() == files.len()
            &&& forall|i: int| 0 <= i < files.len() ==> (#[trigger] w.cache[i]) is None
            &&& forall|i: int| 0 <= i < files.len() ==> !#[trigger] w.locked[i]
            &&& w.jsonl == jsonl
            &&& w.selected == selected
            &&& forall|op: int, file: int|
                0 <= op < ops.len() && 0 <= file < files.len() && !is_bad(ops[op])
                    && #[trigger] selected[op][file] ==> {
                    &&& !(w.stage is Finished || w.stage is Committing)
                    &&& !comes_before(op, file, w.op, w.file)
                }
        }),
{
    let v = JsonView {
        ops,
        options,
        files,
        jsonl,
        selected,
        op: 0,
        file: 0,
        cache: Seq::new(files.len(), |i: int| None),
        locked: Seq::new(files.len(), |i: int| false),
        summary: SummaryView { files_matched: 0, files_modified: 0, total_replacements: 0 },
        results: Seq::empty(),
        errors: Seq::empty(),
        pending: Seq::empty(),
        log,
        stage: JsonStageView::Ready,
    };
    lemma_settled_keeps(v);
    lemma_settled_is_about(v);
    assert forall|op: int, file: int|
        0 <= op < ops.len() && 0 <= file < files.len() && !is_bad(ops[op])
            && #[trigger] selected[op][file] implies {
        &&& !(settled(v).stage is Finished || settled(v).stage is Committing)
        &&& !comes_before(op, file, settled(v).op, settled(v).file)
    } by {
        law_run_passes_over_nothing(v, op, file);
    }
}

proof fn lemma_settled_is_about(v: JsonView)
    ensures
        settled(v).jsonl == v.jsonl,
        settled(v).selected == v.selected,
    decreases v.ops.len() - v.op, v.files.len() - v.file,
{
    if v.op < 0 || v.op >= v.ops.len() {
    } else if is_bad(v.ops[v.op]) {
        lemma_settled_is_about(
            JsonView {
                errors: v.errors.push(bad_op_error(v.ops[v.op], v.op)),
                op: v.op + 1,
                file: 0,
                ..v
            },
        );
    } else if v.file < 0 || v.file >= v.files.len() {
        lemma_settled_is_about(JsonView { op: v.op + 1, file: 0, ..v });
    } else if !v.selected[v.op][v.file] {
        lemma_settled_is_about(JsonView { file: v.file + 1, ..v });
    }
}

/// Whether two states are of runs of the same operations over the same files.
pub open spec fn same_subject(v: JsonView, w: JsonView) -> bool {
    &&& w.ops == v.ops
    &&& w.options == v.options
    &&& w.files == v.files
    &&& w.jsonl == v.jsonl
    &&& w.selected == v.selected
}

proof fn lemma_saving_same_subject(
    v: JsonView,
    text: Option<Seq<char>>,
    undo: Option<Seq<char>>,
    e: SourceEncoding,
    now: Seq<char>,
)
    ensures
        same_subject(v, saving(v, text, undo, e, now)),
{
}

proof fn lemma_edited_same_subject(v: JsonView, out: OutputView, e: SourceEncoding, now: Seq<char>)
    ensures
        same_subject(v, edited(v, out, e, now)),
{
    if out.changes.len() > 0 && !v.jsonl {
        let counted = JsonView {
            cache: match out.text {
                Some(text) => v.cache.update(v.file, Some((text, e))),
                None => v.cache,
            },
            summary: SummaryView {
                files_matched: run::capped_sum(v.summary.files_matched, 1),
                total_replacements: run::capped_sum(
                    v.summary.total_replacements,
                    out.changes.len() as int,
                ),
                ..v.summary
            },
            results: v.results.push(
                ResultView { operation_index: v.op, files: seq![(path_of(v), out.changes)] },
            ),
            ..v
        };
        lemma_saving_same_subject(counted, out.text, out.undo, e, now);
    }
}

proof fn lemma_applied_same_subject(v: JsonView, text: Seq<char>, e: SourceEncoding, now: Seq<char>)
    ensures
        same_subject(v, applied(v, text, e, now)),
{
    match made_of(v, text) {
        Err(_) => {},
        Ok(out) => {
            lemma_edited_same_subject(v, out, e, now);
        },
    }
}

proof fn lemma_reacted_same_subject(v: JsonView, event: JsonEventView, now: Seq<char>)
    ensures
        same_subject(v, reacted(v, event, now)),
{
    match (v.stage, event) {
        (JsonStageView::Reading, JsonEventView::Bytes(b)) => match encoding::decoded(b) {
            Err(_) => {},
            Ok(text) => {
                lemma_applied_same_subject(v, text, encoding::detected(b), now);
            },
        },
        (JsonStageView::Reusing, JsonEventView::Done) => match v.cache[v.file] {
            Some((text, e)) => {
                lemma_applied_same_subject(v, text, e, now);
            },
            None => {},
        },
        (JsonStageView::Reporting { text, undo, encoding }, JsonEventView::Done) => {
            lemma_saving_same_subject(v, text, undo, encoding, now);
        },
        _ => {},
    }
}

/// Behind each answer a run is about the same operations, options and files.
pub proof fn law_run_stays_about_the_same(v: JsonView, event: JsonEventView, now: Seq<char>)
    ensures
        same_subject(v, answered(v, event, now)),
{
    lemma_reacted_same_subject(v, event, now);
    lemma_settled_keeps(reacted(v, event, now));
    lemma_settled_is_about(reacted(v, event, now));
}

/// A run that has the lock of a file goes on with that file, and asks for the
/// lock no more.
pub proof fn law_lock_is_kept(v: JsonView, now: Seq<char>)
    requires
        v.stage is Locking,
        0 <= v.file < v.locked.len(),
    ensures
        ({
            let w = answered(v, JsonEventView::Done, now);
            &&& w.file == v.file
            &&& w.op == v.op
            &&& w.locked[v.file]
            &&& w.stage is Reading <==> v.cache[v.file] is None
            &&& w.stage is Reusing <==> v.cache[v.file] is Some
            &&& w.errors == v.errors
        }),
{
}

/// What fails on a file is an error that names the file, and the run goes on
/// behind it: with nothing written, counted or kept for that file.
pub proof fn law_failure_names_the_file(v: JsonView, e: Seq<char>, now: Seq<char>)
    requires
        v.stage is Locking || v.stage is Reading || v.stage is BackingUp || v.stage is Writing,
    ensures
        ({
            let w = answered(v, JsonEventView::Failed(e), now);
            let added = w.errors[v.errors.len() as int];
            &&& w.errors.len() > v.errors.len()
            &&& added.code == error::ErrorCode::WriteFailed
            &&& added.path == Some(v.files[v.file].path@)
            &&& w.pending == v.pending
            &&& w.summary == v.summary
            &&& w.results == v.results
            &&& w.cache == v.cache
            &&& !(w.stage is Writing || w.stage is BackingUp)
        }),
        v.stage is Reading ==> {
            let w = answered(v, JsonEventView::Denied, now);
            let added = w.errors[v.errors.len() as int];
            &&& w.errors.len() > v.errors.len()
            &&& added.code == error::ErrorCode::PermissionDenied
            &&& added.path == Some(v.files[v.file].path@)
            &&& w.pending == v.pending
        },
{
    let r = reacted(v, JsonEventView::Failed(e), now);
    lemma_settled_keeps(r);
    assert(settled(r).errors.take(r.errors.len() as int)[v.errors.len() as int]
        == r.errors[v.errors.len() as int]);
    if v.stage is Reading {
        let d = reacted(v, JsonEventView::Denied, now);
        lemma_settled_keeps(d);
        assert(settled(d).errors.take(d.errors.len() as int)[v.errors.len() as int]
            == d.errors[v.errors.len() as int]);
    }
}

} // verus!
