//! Runs that ask before each file.
use vstd::prelude::*;

use crate::cli::{display_context_lines, Cli};
use crate::config::Config;
use crate::diff;
use crate::diff::Change;
use crate::edits::{EngineOutput, OutputView};
use crate::encoding;
use crate::encoding::{decode, encode, SourceEncoding};
use crate::engine;
use crate::human::shows_diffs;
use crate::matcher::{Matcher, MatcherView};
use crate::operation::{Op, OpOptions, OpView, OptionsView};
use crate::process;
use crate::process::message;
use crate::run;
use crate::run::{add_counts, record_in, RunTotals, RunView};
use crate::script;
use crate::script::trimmed_chars;
use crate::strings;
use crate::strings::{owned, str_eq, string_of};
use crate::transform;

verus! {

/// What a user can answer when asked to confirm the changes of a file.
#[derive(Debug, Clone, Copy, PartialEq, Eq, Structural)]
pub enum ConfirmAction {
    /// Apply these changes.
    Yes,
    /// Leave this file as it is.
    No,
    /// Apply these changes, and all further ones without asking.
    ApplyAll,
    /// Leave this file as it is.
    SkipFile,
    /// End the run at once.
    Quit,
}

/// What a word in lower case means as an answer. Anything but the words known
/// here is a no.
pub open spec fn action_of(word: Seq<char>) -> ConfirmAction {
    if word == "y"@ || word == "yes"@ {
        ConfirmAction::Yes
    } else if word == "a"@ || word == "all"@ {
        ConfirmAction::ApplyAll
    } else if word == "s"@ || word == "skip"@ {
        ConfirmAction::SkipFile
    } else if word == "q"@ || word == "quit"@ {
        ConfirmAction::Quit
    } else {
        ConfirmAction::No
    }
}

/// Reads a word in lower case as an answer.
pub fn read_action(word: &str) -> (a: ConfirmAction)
    ensures
        a == action_of(word@),
{
    if str_eq(word, "y") || str_eq(word, "yes") {
        ConfirmAction::Yes
    } else if str_eq(word, "a") || str_eq(word, "all") {
        ConfirmAction::ApplyAll
    } else if str_eq(word, "s") || str_eq(word, "skip") {
        ConfirmAction::SkipFile
    } else if str_eq(word, "q") || str_eq(word, "quit") {
        ConfirmAction::Quit
    } else {
        ConfirmAction::No
    }
}

/// Reads an answer: in either case, and with whatever white space around it.
pub fn parse_confirm_response(response: &str) -> (a: ConfirmAction)
    ensures
        a == action_of(transform::str_lower(script::trim(response@))),
{
    let chars = trimmed_chars(response);
    let trimmed = string_of(&chars, 0, chars.len());
    proof {
        assert(trimmed@ =~= script::trim(response@));
    }
    let word = trimmed.as_str().to_lowercase();
    read_action(word.as_str())
}

/// What holds for a run that asks.
#[derive(Debug, Clone, Copy, PartialEq, Eq, Structural)]
pub struct ConfirmOptions {
    pub dry_run: bool,
    /// Whether changes that were agreed to are shown.
    pub show: bool,
    pub context_lines: usize,
    pub undo_max_file_bytes: u64,
}

/// What holds for a run that asks, by the arguments and the settings.
pub fn confirm_options(cli: &Cli, config: &Config) -> (o: ConfirmOptions)
    ensures
        o == (ConfirmOptions {
            dry_run: cli.dry_run,
            show: !cli.count && !cli.quiet,
            context_lines: if cli.quiet || cli.count {
                0
            } else {
                3
            },
            undo_max_file_bytes: config.undo.max_file_bytes,
        }),
{
    ConfirmOptions {
        dry_run: cli.dry_run,
        show: shows_diffs(cli),
        context_lines: display_context_lines(cli),
        undo_max_file_bytes: config.undo.max_file_bytes,
    }
}

/// What a run that asks wants done.
#[derive(Debug, Clone, PartialEq, Eq)]
pub enum ConfirmStep {
    /// Open the next file.
    Next,
    /// Take the lock of the file.
    Lock,
    /// Read the file.
    Read,
    /// Ask whether to apply the changes.
    Ask,
    /// Show the changes.
    Show,
    /// Make a backup of the file.
    Backup,
    /// Put these bytes in place of the file, at once.
    Write(Vec<u8>),
    /// End the run.
    Quit,
}

/// How it went.
#[derive(Debug, Clone, PartialEq, Eq)]
pub enum ConfirmEvent {
    Done,
    Bytes(Vec<u8>),
    Reply(ConfirmAction),
    Failed(String),
}

/// What a [`ConfirmEvent`] says.
#[verifier::ext_equal]
pub enum ConfirmEventView {
    Done,
    Bytes(Seq<u8>),
    Reply(ConfirmAction),
    Failed(Seq<char>),
}

impl View for ConfirmEvent {
    type V = ConfirmEventView;

    open spec fn view(&self) -> ConfirmEventView {
        match self {
            ConfirmEvent::Done => ConfirmEventView::Done,
            ConfirmEvent::Bytes(b) => ConfirmEventView::Bytes(b@),
            ConfirmEvent::Reply(a) => ConfirmEventView::Reply(*a),
            ConfirmEvent::Failed(e) => ConfirmEventView::Failed(e@),
        }
    }
}

enum ConfirmStage {
    Idle,
    Locking,
    Reading,
    Asking { output: EngineOutput, encoding: SourceEncoding },
    Showing { output: EngineOutput, encoding: SourceEncoding },
    BackingUp { output: EngineOutput, encoding: SourceEncoding },
    Writing { bytes: Vec<u8> },
    Over,
}

/// Where a run that asks stands.
#[verifier::ext_equal]
pub enum ConfirmStageView {
    /// Between two files.
    Idle,
    /// Waiting for the lock.
    Locking,
    /// Waiting for the file.
    Reading,
    /// Waiting for an answer.
    Asking { output: OutputView, encoding: SourceEncoding },
    /// Waiting for the changes to be shown.
    Showing { output: OutputView, encoding: SourceEncoding },
    /// Waiting for the backup.
    BackingUp { output: OutputView, encoding: SourceEncoding },
    /// Waiting for the file to be written.
    Writing { bytes: Seq<u8> },
    /// The run was ended.
    Over,
}

impl ConfirmStage {
    spec fn shown(self) -> ConfirmStageView {
        match self {
            ConfirmStage::Idle => ConfirmStageView::Idle,
            ConfirmStage::Locking => ConfirmStageView::Locking,
            ConfirmStage::Reading => ConfirmStageView::Reading,
            ConfirmStage::Asking { output, encoding } => ConfirmStageView::Asking {
                output: output@,
                encoding,
            },
            ConfirmStage::Showing { output, encoding } => ConfirmStageView::Showing {
                output: output@,
                encoding,
            },
            ConfirmStage::BackingUp { output, encoding } => ConfirmStageView::BackingUp {
                output: output@,
                encoding,
            },
            ConfirmStage::Writing { bytes } => ConfirmStageView::Writing { bytes: bytes@ },
            ConfirmStage::Over => ConfirmStageView::Over,
        }
    }
}

/// A run that asks before each file.
pub struct ConfirmRun<'a> {
    op: &'a Op,
    matcher: &'a Matcher,
    options: &'a OpOptions,
    settings: ConfirmOptions,
    apply_all: bool,
    totals: RunTotals,
    messages: Vec<String>,
    path: String,
    stage: ConfirmStage,
}

/// What a [`ConfirmRun`] is about, and where it stands.
#[verifier::ext_equal]
pub struct ConfirmView {
    pub op: OpView,
    pub matcher: MatcherView,
    pub options: OptionsView,
    pub settings: ConfirmOptions,
    /// Whether further changes are applied without asking.
    pub apply_all: bool,
    pub totals: RunView,
    /// What is to be said to the user, all of it so far.
    pub messages: Seq<Seq<char>>,
    pub path: Seq<char>,
    pub stage: ConfirmStageView,
}

/// A run in another stage.
pub open spec fn at_stage(c: ConfirmView, stage: ConfirmStageView) -> ConfirmView {
    ConfirmView { stage, ..c }
}

/// A run that goes on with the next file because something went wrong.
pub open spec fn trouble(c: ConfirmView, message: Seq<char>) -> ConfirmView {
    ConfirmView {
        totals: RunView { had_errors: true, ..c.totals },
        messages: c.messages.push(message),
        stage: ConfirmStageView::Idle,
        ..c
    }
}

/// A run at the start of a file.
pub open spec fn opened(c: ConfirmView, path: Seq<char>) -> ConfirmView {
    ConfirmView {
        path,
        stage: if c.settings.dry_run {
            ConfirmStageView::Reading
        } else {
            ConfirmStageView::Locking
        },
        ..c
    }
}

/// A run that is about to write changes: what can be undone is recorded first.
pub open spec fn writing(c: ConfirmView, out: OutputView, e: SourceEncoding, now: Seq<char>) -> ConfirmView {
    match out.text {
        None => at_stage(c, ConfirmStageView::Idle),
        Some(text) => {
            let undo = match out.undo {
                Some(original) => Some((original, e)),
                None => None,
            };
            let cap = c.settings.undo_max_file_bytes;
            ConfirmView {
                totals: RunView {
                    log: run::log_after(c.totals.log, c.path, undo, cap, now),
                    ..c.totals
                },
                messages: match run::note_after(c.totals.log, c.path, undo, cap) {
                    Some(note) => c.messages.push(note),
                    None => c.messages,
                },
                stage: ConfirmStageView::Writing { bytes: encoding::encoded(text, e) },
                ..c
            }
        },
    }
}

/// A run whose changes have been shown, where they are.
pub open spec fn saving(c: ConfirmView, out: OutputView, e: SourceEncoding, now: Seq<char>) -> ConfirmView {
    if c.settings.dry_run {
        at_stage(c, ConfirmStageView::Idle)
    } else if c.options.backup {
        at_stage(c, ConfirmStageView::BackingUp { output: out, encoding: e })
    } else {
        writing(c, out, e, now)
    }
}

/// A run whose changes have been agreed to.
pub open spec fn agreed(c: ConfirmView, out: OutputView, e: SourceEncoding, now: Seq<char>) -> ConfirmView {
    let counted = ConfirmView {
        totals: RunView {
            total_changes: run::capped_sum(c.totals.total_changes, out.changes.len() as int),
            ..c.totals
        },
        ..c
    };
    if c.settings.show {
        at_stage(counted, ConfirmStageView::Showing { output: out, encoding: e })
    } else {
        saving(counted, out, e, now)
    }
}

/// A run that has its file in memory.
pub open spec fn reviewed(c: ConfirmView, bytes: Seq<u8>, now: Seq<char>) -> ConfirmView {
    match encoding::decoded(bytes) {
        Err(e) => trouble(c, process::file_error(c.path, process::decode_message(e))),
        Ok(text) => match engine::apply_result(
            text,
            c.op,
            c.matcher,
            c.options.range_spec(),
            c.settings.context_lines as int,
        ) {
            Err(e) => trouble(c, process::file_error(c.path, process::error_display(e))),
            Ok(out) => if out.changes.len() == 0 {
                at_stage(c, ConfirmStageView::Idle)
            } else if c.apply_all {
                agreed(c, out, encoding::detected(bytes), now)
            } else {
                at_stage(
                    c,
                    ConfirmStageView::Asking { output: out, encoding: encoding::detected(bytes) },
                )
            },
        },
    }
}

/// A run that has been given an answer.
pub open spec fn replied(
    c: ConfirmView,
    out: OutputView,
    e: SourceEncoding,
    reply: ConfirmAction,
    now: Seq<char>,
) -> ConfirmView {
    match reply {
        ConfirmAction::Yes => agreed(c, out, e, now),
        ConfirmAction::ApplyAll => agreed(ConfirmView { apply_all: true, ..c }, out, e, now),
        ConfirmAction::No => at_stage(c, ConfirmStageView::Idle),
        ConfirmAction::SkipFile => at_stage(c, ConfirmStageView::Idle),
        ConfirmAction::Quit => at_stage(c, ConfirmStageView::Over),
    }
}

/// What becomes of a run that is told how its last step went. An answer that
/// does not fit what the run waits for changes nothing.
pub open spec fn answered(c: ConfirmView, event: ConfirmEventView, now: Seq<char>) -> ConfirmView {
    match (c.stage, event) {
        (ConfirmStageView::Locking, ConfirmEventView::Done) => at_stage(
            c,
            ConfirmStageView::Reading,
        ),
        (ConfirmStageView::Locking, ConfirmEventView::Failed(e)) => trouble(
            c,
            process::file_error(c.path, e),
        ),
        (ConfirmStageView::Reading, ConfirmEventView::Bytes(b)) => reviewed(c, b, now),
        (ConfirmStageView::Reading, ConfirmEventView::Failed(e)) => trouble(
            c,
            process::file_error(c.path, e),
        ),
        (
            ConfirmStageView::Asking { output, encoding },
            ConfirmEventView::Reply(reply),
        ) => replied(c, output, encoding, reply, now),
        (ConfirmStageView::Showing { output, encoding }, ConfirmEventView::Done) => saving(
            c,
            output,
            encoding,
            now,
        ),
        (ConfirmStageView::BackingUp { output, encoding }, ConfirmEventView::Done) => writing(
            c,
            output,
            encoding,
            now,
        ),
        (ConfirmStageView::BackingUp { .. }, ConfirmEventView::Failed(e)) => trouble(
            c,
            process::backup_error(c.path, e),
        ),
        (ConfirmStageView::Writing { .. }, ConfirmEventView::Done) => ConfirmView {
            totals: RunView {
                files_modified: run::capped_sum(c.totals.files_modified, 1),
                ..c.totals
            },
            stage: ConfirmStageView::Idle,
            ..c
        },
        (ConfirmStageView::Writing { .. }, ConfirmEventView::Failed(e)) => trouble(
            c,
            process::write_error(c.path, e),
        ),
        _ => c,
    }
}

impl<'a> View for ConfirmRun<'a> {
    type V = ConfirmView;

    closed spec fn view(&self) -> ConfirmView {
        ConfirmView {
            op: self.op@,
            matcher: self.matcher@,
            options: self.options@,
            settings: self.settings,
            apply_all: self.apply_all,
            totals: self.totals@,
            messages: strings::strings_view(self.messages@),
            path: self.path@,
            stage: self.stage.shown(),
        }
    }
}

impl<'a> ConfirmRun<'a> {
    /// A run before its first file.
    pub fn new(
        op: &'a Op,
        matcher: &'a Matcher,
        options: &'a OpOptions,
        settings: ConfirmOptions,
        totals: RunTotals,
    ) -> (c: ConfirmRun<'a>)
        ensures
            c@ == (ConfirmView {
                op: op@,
                matcher: matcher@,
                options: options@,
                settings,
                apply_all: false,
                totals: totals@,
                messages: Seq::empty(),
                path: Seq::empty(),
                stage: ConfirmStageView::Idle,
            }),
    {
        let messages: Vec<String> = Vec::new();
        proof {
            assert(strings::strings_view(messages@) =~= Seq::<Seq<char>>::empty());
        }
        ConfirmRun {
            op,
            matcher,
            options,
            settings,
            apply_all: false,
            totals,
            messages,
            path: String::new(),
            stage: ConfirmStage::Idle,
        }
    }

    /// Opens the next file.
    pub fn open(self, path: &str) -> (c: ConfirmRun<'a>)
        requires
            self@.stage is Idle,
        ensures
            c@ == opened(self@, path@),
    {
        let mut c = self;
        c.path = owned(path);
        c.stage = if c.settings.dry_run {
            ConfirmStage::Reading
        } else {
            ConfirmStage::Locking
        };
        c
    }

    /// What the run wants done.
    pub fn action(&self) -> (a: ConfirmStep)
        ensures
            match self@.stage {
                ConfirmStageView::Idle => a is Next,
                ConfirmStageView::Locking => a is Lock,
                ConfirmStageView::Reading => a is Read,
                ConfirmStageView::Asking { .. } => a is Ask,
                ConfirmStageView::Showing { .. } => a is Show,
                ConfirmStageView::BackingUp { .. } => a is Backup,
                ConfirmStageView::Writing { bytes } => a matches ConfirmStep::Write(b) && b@
                    == bytes,
                ConfirmStageView::Over => a is Quit,
            },
    {
        match &self.stage {
            ConfirmStage::Idle => ConfirmStep::Next,
            ConfirmStage::Locking => ConfirmStep::Lock,
            ConfirmStage::Reading => ConfirmStep::Read,
            ConfirmStage::Asking { .. } => ConfirmStep::Ask,
            ConfirmStage::Showing { .. } => ConfirmStep::Show,
            ConfirmStage::BackingUp { .. } => ConfirmStep::Backup,
            ConfirmStage::Writing { bytes } => ConfirmStep::Write(
                vstd::slice::slice_to_vec(bytes.as_slice()),
            ),
            ConfirmStage::Over => ConfirmStep::Quit,
        }
    }

    /// The changes that are asked about or shown.
    pub fn changes(&self) -> (r: Option<&[Change]>)
        ensures
            match self@.stage {
                ConfirmStageView::Asking { output, .. } => r matches Some(cs)
                    && diff::changes_view(cs@) == output.changes,
                ConfirmStageView::Showing { output, .. } => r matches Some(cs)
                    && diff::changes_view(cs@) == output.changes,
                _ => r is None,
            },
    {
        match &self.stage {
            ConfirmStage::Asking { output, .. } => Some(output.changes.as_slice()),
            ConfirmStage::Showing { output, .. } => Some(output.changes.as_slice()),
            _ => None,
        }
    }

    /// What is to be said to the user, all of it so far.
    pub fn messages(&self) -> (r: &[String])
        ensures
            strings::strings_view(r@) == self@.messages,
    {
        self.messages.as_slice()
    }

    /// What the run came to.
    pub fn into_totals(self) -> (t: RunTotals)
        ensures
            t@ == self@.totals,
    {
        self.totals
    }

    fn moved(self, stage: ConfirmStage) -> (c: ConfirmRun<'a>)
        ensures
            c@ == at_stage(self@, stage.shown()),
    {
        let mut c = self;
        c.stage = stage;
        c
    }

    fn fail(self, lead: &str, detail: &str) -> (c: ConfirmRun<'a>)
        ensures
            c@ == trouble(self@, lead@ + self@.path + ": "@ + detail@),
    {
        let text = message(lead, self.path.as_str(), detail);
        let mut c = self;
        let ghost before = c.messages@;
        c.messages.push(text);
        c.totals.had_errors = true;
        c.stage = ConfirmStage::Idle;
        proof {
            assert(strings::strings_view(c.messages@) =~= strings::strings_view(before).push(text@));
        }
        c
    }

    fn write(self, output: EngineOutput, encoding: SourceEncoding, now: &str) -> (c: ConfirmRun<
        'a,
    >)
        ensures
            c@ == writing(self@, output@, encoding, now@),
    {
        let mut c = self;
        match output.text {
            None => {
                c.stage = ConfirmStage::Idle;
                c
            },
            Some(text) => {
                let undo = match output.undo {
                    Some(entry) => Some((entry, encoding)),
                    None => None,
                };
                let RunTotals { total_changes, files_modified, had_errors, log } = c.totals;
                let (log, note) = record_in(
                    log,
                    c.path.as_str(),
                    &undo,
                    c.settings.undo_max_file_bytes,
                    now,
                );
                c.totals = RunTotals { total_changes, files_modified, had_errors, log };
                let ghost before = c.messages@;
                match note {
                    Some(n) => {
                        c.messages.push(n);
                        proof {
                            assert(strings::strings_view(c.messages@) =~= strings::strings_view(
                                before,
                            ).push(n@));
                        }
                    },
                    None => {},
                }
                c.stage = ConfirmStage::Writing { bytes: encode(text.as_str(), encoding) };
                c
            },
        }
    }

    fn save(self, output: EngineOutput, encoding: SourceEncoding, now: &str) -> (c: ConfirmRun<
        'a,
    >)
        ensures
            c@ == saving(self@, output@, encoding, now@),
    {
        if self.settings.dry_run {
            self.moved(ConfirmStage::Idle)
        } else if self.options.backup {
            self.moved(ConfirmStage::BackingUp { output, encoding })
        } else {
            self.write(output, encoding, now)
        }
    }

    fn agree(self, output: EngineOutput, encoding: SourceEncoding, now: &str) -> (c: ConfirmRun<
        'a,
    >)
        ensures
            c@ == agreed(self@, output@, encoding, now@),
    {
        let mut c = self;
        c.totals.total_changes = add_counts(c.totals.total_changes, output.changes.len());
        if c.settings.show {
            c.moved(ConfirmStage::Showing { output, encoding })
        } else {
            c.save(output, encoding, now)
        }
    }

    fn review(self, bytes: Vec<u8>, now: &str) -> (c: ConfirmRun<'a>)
        ensures
            c@ == reviewed(self@, bytes@, now@),
    {
        let (text, encoding) = match decode(bytes) {
            Ok(r) => r,
            Err(e) => {
                return self.fail("ripsed: ", e.message().as_str());
            },
        };
        let output = match engine::apply(
            text.as_str(),
            self.op,
            self.matcher,
            self.options.range_spec(),
            self.settings.context_lines,
        ) {
            Ok(o) => o,
            Err(e) => {
                return self.fail("ripsed: ", e.display().as_str());
            },
        };
        if output.changes.len() == 0 {
            self.moved(ConfirmStage::Idle)
        } else if self.apply_all {
            self.agree(output, encoding, now)
        } else {
            self.moved(ConfirmStage::Asking { output, encoding })
        }
    }

    /// Tells the run how its last step went, and what time it is.
    #[verifier::rlimit(30)]
    pub fn answer(self, event: ConfirmEvent, now: &str) -> (c: ConfirmRun<'a>)
        ensures
            c@ == answered(self@, event@, now@),
    {
        let ghost was = self@;
        let ConfirmRun {
            op,
            matcher,
            options,
            settings,
            apply_all,
            totals,
            messages,
            path,
            stage,
        } = self;
        let mut c = ConfirmRun {
            op,
            matcher,
            options,
            settings,
            apply_all,
            totals,
            messages,
            path,
            stage: ConfirmStage::Idle,
        };
        proof {
            assert(c@ == at_stage(was, ConfirmStageView::Idle));
        }
        match stage {
            ConfirmStage::Locking => match event {
                ConfirmEvent::Done => c.moved(ConfirmStage::Reading),
                ConfirmEvent::Failed(e) => c.fail("ripsed: ", e.as_str()),
                _ => c.moved(ConfirmStage::Locking),
            },
            ConfirmStage::Reading => match event {
                ConfirmEvent::Bytes(b) => c.review(b, now),
                ConfirmEvent::Failed(e) => c.fail("ripsed: ", e.as_str()),
                _ => c.moved(ConfirmStage::Reading),
            },
            ConfirmStage::Asking { output, encoding } => match event {
                ConfirmEvent::Reply(ConfirmAction::Yes) => c.agree(output, encoding, now),
                ConfirmEvent::Reply(ConfirmAction::ApplyAll) => {
                    c.apply_all = true;
                    c.agree(output, encoding, now)
                },
                ConfirmEvent::Reply(ConfirmAction::Quit) => c.moved(ConfirmStage::Over),
                ConfirmEvent::Reply(_) => c.moved(ConfirmStage::Idle),
                _ => c.moved(ConfirmStage::Asking { output, encoding }),
            },
            ConfirmStage::Showing { output, encoding } => match event {
                ConfirmEvent::Done => c.save(output, encoding, now),
                _ => c.moved(ConfirmStage::Showing { output, encoding }),
            },
            ConfirmStage::BackingUp { output, encoding } => match event {
                ConfirmEvent::Done => c.write(output, encoding, now),
                ConfirmEvent::Failed(e) => c.fail("ripsed: backup failed for ", e.as_str()),
                _ => c.moved(ConfirmStage::BackingUp { output, encoding }),
            },
            ConfirmStage::Writing { bytes } => match event {
                ConfirmEvent::Done => {
                    c.totals.files_modified = add_counts(c.totals.files_modified, 1);
                    c
                },
                ConfirmEvent::Failed(e) => c.fail("ripsed: write failed for ", e.as_str()),
                _ => c.moved(ConfirmStage::Writing { bytes }),
            },
            ConfirmStage::Idle => c,
            ConfirmStage::Over => c.moved(ConfirmStage::Over),
        }
    }
}

/// Whether a stage lies behind an agreement.
pub open spec fn is_agreed(stage: ConfirmStageView) -> bool {
    stage is Showing || stage is BackingUp || stage is Writing
}

/// A file is changed only where the user agreed to it, now or for all files.
pub proof fn law_nothing_without_agreement(c: ConfirmView, event: ConfirmEventView, now: Seq<char>)
    requires
        !is_agreed(c.stage),
        is_agreed(answered(c, event, now).stage) || answered(c, event, now).totals.total_changes
            != c.totals.total_changes || answered(c, event, now).totals.log != c.totals.log,
    ensures
        c.apply_all || event == ConfirmEventView::Reply(ConfirmAction::Yes) || event
            == ConfirmEventView::Reply(ConfirmAction::ApplyAll),
{
}

/// A refusal leaves all as it was, and the run goes on with the next file.
pub proof fn law_refusal_changes_nothing(c: ConfirmView, reply: ConfirmAction, now: Seq<char>)
    requires
        c.stage is Asking,
        reply == ConfirmAction::No || reply == ConfirmAction::SkipFile,
    ensures
        answered(c, ConfirmEventView::Reply(reply), now) == at_stage(c, ConfirmStageView::Idle),
{
}

/// A dry run that asks takes no lock, makes no backup and writes nothing.
pub proof fn law_dry_run_touches_nothing(c: ConfirmView, event: ConfirmEventView, now: Seq<char>)
    requires
        c.settings.dry_run,
        !(c.stage is Locking || c.stage is BackingUp || c.stage is Writing),
    ensures
        !(answered(c, event, now).stage is Locking || answered(c, event, now).stage is BackingUp
            || answered(c, event, now).stage is Writing),
        answered(c, event, now).totals.files_modified == c.totals.files_modified,
        answered(c, event, now).totals.log == c.totals.log,
        answered(c, event, now).settings == c.settings,
{
}

} // verus!
