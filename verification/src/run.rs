//! A whole run: what its files come to together, and how it ends.
use std::collections::HashSet;
use vstd::prelude::*;
use vstd::std_specs::hash::*;

use crate::cli::{build_op_options, copy_opt, display_context_lines, Cli};
use crate::cli;
use crate::config::Config;
use crate::error;
use crate::operation::OpOptions;
use crate::process::{FileOutcome, OutcomeView, ProcessOptions};
use crate::request;
use crate::script::ScriptOp;
use crate::undo;
use crate::undo::{record_undo_capped, undo_skip_note, LogView, UndoLog};

verus! {

/// The exit code of a run that matched nothing.
pub const EXIT_NO_MATCHES: i32 = 1;

/// The exit code of a run in which something went wrong.
pub const EXIT_ERROR: i32 = 2;

/// How a run ends.
pub open spec fn exit_of(had_errors: bool, total_changes: int) -> Result<(), i32> {
    if had_errors {
        Err(EXIT_ERROR)
    } else if total_changes == 0 {
        Err(EXIT_NO_MATCHES)
    } else {
        Ok(())
    }
}

/// How a run ends: errors take precedence, then it is whether anything matched.
pub fn exit_result(had_errors: bool, total_changes: usize) -> (r: Result<(), i32>)
    ensures
        r == exit_of(had_errors, total_changes as int),
{
    if had_errors {
        Err(EXIT_ERROR)
    } else if total_changes == 0 {
        Err(EXIT_NO_MATCHES)
    } else {
        Ok(())
    }
}

/// The sum of two counts, at most the largest count there is.
pub open spec fn capped_sum(a: int, b: int) -> int {
    if a + b > usize::MAX {
        usize::MAX as int
    } else {
        a + b
    }
}

/// Adds two counts.
pub fn add_counts(a: usize, b: usize) -> (r: usize)
    ensures
        r == capped_sum(a as int, b as int),
{
    a.saturating_add(b)
}

/// What the files of a run have come to so far.
pub struct RunTotals {
    pub total_changes: usize,
    pub files_modified: usize,
    pub had_errors: bool,
    /// The undo log, where the run keeps one.
    pub log: Option<UndoLog>,
}

/// The view of an optional log.
pub open spec fn log_view(log: Option<UndoLog>) -> Option<LogView> {
    match log {
        Some(l) => Some(l@),
        None => None,
    }
}

/// What a [`RunTotals`] says.
#[verifier::ext_equal]
pub struct RunView {
    pub total_changes: int,
    pub files_modified: int,
    pub had_errors: bool,
    pub log: Option<LogView>,
}

impl View for RunTotals {
    type V = RunView;

    open spec fn view(&self) -> RunView {
        RunView {
            total_changes: self.total_changes as int,
            files_modified: self.files_modified as int,
            had_errors: self.had_errors,
            log: log_view(self.log),
        }
    }
}

/// The log behind a file that was changed: what can be undone is recorded,
/// unless it is over the cap.
pub open spec fn log_after(
    log: Option<LogView>,
    path: Seq<char>,
    undo: Option<(Seq<char>, crate::encoding::SourceEncoding)>,
    cap: u64,
    now: Seq<char>,
) -> Option<LogView> {
    match (log, undo) {
        (Some(l), Some((text, e))) => if undo::over_cap(text, cap) {
            Some(l)
        } else {
            Some(undo::logged(l, undo::undo_record(now, path, text, e)))
        },
        _ => log,
    }
}

/// What is said of a file whose text is over the cap.
pub open spec fn note_after(
    log: Option<LogView>,
    path: Seq<char>,
    undo: Option<(Seq<char>, crate::encoding::SourceEncoding)>,
    cap: u64,
) -> Option<Seq<char>> {
    match (log, undo) {
        (Some(_), Some((text, _))) => if undo::over_cap(text, cap) {
            Some(
                undo::skip_note(path, vstd::utf8::encode_utf8(text).len(), cap as nat),
            )
        } else {
            None
        },
        _ => None,
    }
}

/// A run behind another file.
pub open spec fn run_after(run: RunView, o: OutcomeView, cap: u64, now: Seq<char>) -> RunView {
    let marked = RunView { had_errors: run.had_errors || o.errors.len() > 0, ..run };
    if o.total == 0 {
        marked
    } else {
        RunView {
            total_changes: capped_sum(run.total_changes, o.total),
            files_modified: if o.modified {
                capped_sum(run.files_modified, 1)
            } else {
                run.files_modified
            },
            log: log_after(run.log, o.path, o.undo, cap, now),
            ..marked
        }
    }
}

/// Records in a log, where there is one, what can be undone of a file. Says so
/// where the text is over the cap.
pub fn record_in(
    log: Option<UndoLog>,
    path: &str,
    undo: &Option<(undo::UndoEntry, crate::encoding::SourceEncoding)>,
    cap: u64,
    now: &str,
) -> (r: (Option<UndoLog>, Option<String>))
    ensures
        log_view(r.0) == log_after(
            log_view(log),
            path@,
            crate::process::undo_view(*undo),
            cap,
            now@,
        ),
        error::opt_view(r.1) == note_after(
            log_view(log),
            path@,
            crate::process::undo_view(*undo),
            cap,
        ),
{
    match log {
        Some(l) => {
            let mut l = l;
            match undo {
                Some((entry, e)) => {
                    if record_undo_capped(&mut l, now, path, entry, *e, cap) {
                        (Some(l), None)
                    } else {
                        (Some(l), Some(undo_skip_note(path, entry, cap)))
                    }
                },
                None => (Some(l), None),
            }
        },
        None => (None, None),
    }
}

impl RunTotals {
    /// A run before its first file.
    pub fn new(log: Option<UndoLog>) -> (r: RunTotals)
        ensures
            r@ == (RunView {
                total_changes: 0,
                files_modified: 0,
                had_errors: false,
                log: log_view(log),
            }),
    {
        RunTotals { total_changes: 0, files_modified: 0, had_errors: false, log }
    }

    /// Adds what work on a file came to. Gives back a remark where the file
    /// cannot be undone for its size.
    pub fn absorb(self, outcome: &FileOutcome, cap: u64, now: &str) -> (r: (RunTotals, Option<
        String,
    >))
        ensures
            r.0@ == run_after(self@, outcome@, cap, now@),
            error::opt_view(r.1) == if outcome@.total == 0 {
                None
            } else {
                note_after(self@.log, outcome@.path, outcome@.undo, cap)
            },
    {
        let mut run = self;
        if outcome.errors.len() > 0 {
            run.had_errors = true;
        }
        if outcome.total_line_changes == 0 {
            return (run, None);
        }
        let total_changes = add_counts(run.total_changes, outcome.total_line_changes);
        let files_modified = if outcome.modified {
            add_counts(run.files_modified, 1)
        } else {
            run.files_modified
        };
        let (log, note) = record_in(run.log, outcome.path.as_str(), &outcome.undo, cap, now);
        (RunTotals { total_changes, files_modified, had_errors: run.had_errors, log }, note)
    }

    /// How the run ends.
    pub fn exit(&self) -> (r: Result<(), i32>)
        ensures
            r == exit_of(self@.had_errors, self@.total_changes),
    {
        exit_result(self.had_errors, self.total_changes)
    }
}

/// Whether a run keeps an undo log: not a dry run, and not where undo is off.
pub fn keeps_undo(cli: &Cli) -> (b: bool)
    ensures
        b == (!cli.dry_run && !cli.no_undo),
{
    !cli.dry_run && !cli.no_undo
}

/// What holds for the work on a file, by the arguments and the settings.
pub fn process_options(cli: &Cli, config: &Config, skip_backup: bool) -> (p: ProcessOptions)
    ensures
        p == (ProcessOptions {
            dry_run: cli.dry_run,
            skip_backup,
            context_lines: if cli.quiet || cli.count {
                0
            } else {
                3
            },
            undo_max_file_bytes: config.undo.max_file_bytes,
            stream_min_bytes: config.defaults.stream_min_bytes,
        }),
{
    ProcessOptions {
        dry_run: cli.dry_run,
        skip_backup,
        context_lines: display_context_lines(cli),
        undo_max_file_bytes: config.undo.max_file_bytes,
        stream_min_bytes: config.defaults.stream_min_bytes,
    }
}

// ---------------------------------------------------------------------------
// Scripts
// ---------------------------------------------------------------------------

/// The options of one operation of a script: its own glob takes precedence
/// over that of the arguments.
pub fn script_options(cli: &Cli, config: &Config, script_op: &ScriptOp) -> (o: OpOptions)
    ensures
        o@ == cli::options_of_cli(
            *cli,
            *config,
            request::effective_glob(error::opt_view(script_op.glob), error::opt_view(cli.glob)),
        ),
{
    let glob = match &script_op.glob {
        Some(g) => Some(g.clone()),
        None => copy_opt(&cli.glob),
    };
    build_op_options(cli, config, glob)
}

/// What an operation of a script works on: those of the first `n` files that
/// are no backup which the script made, in order; each with whether an earlier
/// operation modified it. A file that was modified is not backed up again, so
/// that the backup shows it as it was before the script.
pub open spec fn planned(
    files: Seq<u64>,
    backups: Set<u64>,
    modified: Set<u64>,
    n: int,
) -> Seq<(u64, bool)>
    decreases n,
{
    if n <= 0 {
        Seq::empty()
    } else if backups.contains(files[n - 1]) {
        planned(files, backups, modified, n - 1)
    } else {
        planned(files, backups, modified, n - 1).push(
            (files[n - 1], modified.contains(files[n - 1])),
        )
    }
}

/// The run of a script. Files go by numbers, the same number for the same file
/// in every operation.
pub struct ScriptRun {
    run: RunTotals,
    modified: HashSet<u64>,
    backups: HashSet<u64>,
}

impl ScriptRun {
    /// What the files have come to so far.
    pub closed spec fn run(self) -> RunView {
        self.run@
    }

    /// The files that have been modified so far.
    pub closed spec fn modified(self) -> Set<u64> {
        self.modified@
    }

    /// The backups that have been made so far.
    pub closed spec fn backups(self) -> Set<u64> {
        self.backups@
    }

    /// A script before its first operation.
    pub fn new(log: Option<UndoLog>) -> (s: ScriptRun)
        ensures
            s.run() == (RunView {
                total_changes: 0,
                files_modified: 0,
                had_errors: false,
                log: log_view(log),
            }),
            s.modified() == Set::<u64>::empty(),
            s.backups() == Set::<u64>::empty(),
    {
        ScriptRun { run: RunTotals::new(log), modified: HashSet::new(), backups: HashSet::new() }
    }

    /// Whether a file has been modified by an earlier operation.
    pub fn is_modified(&self, file: u64) -> (b: bool)
        ensures
            b == self.modified().contains(file),
    {
        broadcast use vstd::std_specs::hash::group_hash_axioms;

        self.modified.contains(&file)
    }

    /// What the next operation works on, among the files that were discovered
    /// for it; each with whether its backup is to be skipped.
    pub fn plan(&self, files: &Vec<u64>) -> (r: Vec<(u64, bool)>)
        ensures
            r@ == planned(files@, self.backups(), self.modified(), files@.len() as int),
    {
        broadcast use vstd::std_specs::hash::group_hash_axioms;

        let mut out: Vec<(u64, bool)> = Vec::new();
        let total = files.len();
        let mut i: usize = 0;
        while i < total
            invariant
                total == files@.len(),
                i <= total,
                obeys_key_model::<u64>(),
                builds_valid_hashers::<std::hash::RandomState>(),
                out@ == planned(files@, self.backups(), self.modified(), i as int),
            decreases total - i,
        {
            let file = files[i];
            if !self.backups.contains(&file) {
                out.push((file, self.is_modified(file)));
            }
            i += 1;
        }
        out
    }

    /// Adds what one operation came to on one file, and the backup that was
    /// made of it.
    pub fn absorb(
        self,
        file: u64,
        backup: Option<u64>,
        outcome: &FileOutcome,
        cap: u64,
        now: &str,
    ) -> (r: (ScriptRun, Option<String>))
        ensures
            r.0.run() == run_after(self.run(), outcome@, cap, now@),
            r.0.modified() == if outcome@.total != 0 && outcome@.modified {
                self.modified().insert(file)
            } else {
                self.modified()
            },
            r.0.backups() == match backup {
                Some(b) => self.backups().insert(b),
                None => self.backups(),
            },
            error::opt_view(r.1) == if outcome@.total == 0 {
                None
            } else {
                note_after(self.run().log, outcome@.path, outcome@.undo, cap)
            },
    {
        broadcast use vstd::std_specs::hash::group_hash_axioms;

        let (run, note) = self.run.absorb(outcome, cap, now);
        let mut modified = self.modified;
        if outcome.total_line_changes != 0 && outcome.modified {
            modified.insert(file);
        }
        let mut backups = self.backups;
        if let Some(b) = backup {
            backups.insert(b);
        }
        (ScriptRun { run, modified, backups }, note)
    }

    /// Marks the run as one in which something went wrong.
    pub fn fail(self) -> (s: ScriptRun)
        ensures
            s.run() == (RunView { had_errors: true, ..self.run() }),
            s.modified() == self.modified(),
            s.backups() == self.backups(),
    {
        let mut run = self.run;
        run.had_errors = true;
        ScriptRun { run, modified: self.modified, backups: self.backups }
    }

    /// How many files have been modified.
    pub fn files_modified(&self) -> (n: usize)
        ensures
            n == self.modified().len(),
    {
        broadcast use vstd::std_specs::hash::group_hash_axioms;

        self.modified.len()
    }

    /// What the files have come to.
    pub fn into_totals(self) -> (r: RunTotals)
        ensures
            r@ == self.run(),
    {
        self.run
    }
}

// ---------------------------------------------------------------------------
// Laws
// ---------------------------------------------------------------------------

/// A run behind its first `n` files.
pub open spec fn run_over(run: RunView, outcomes: Seq<OutcomeView>, cap: u64, now: Seq<Seq<char>>, n: int) -> RunView
    decreases n,
{
    if n <= 0 {
        run
    } else {
        run_after(run_over(run, outcomes, cap, now, n - 1), outcomes[n - 1], cap, now[n - 1])
    }
}

/// A run in which any file failed ends with the code of an error, whatever
/// other files came to.
pub proof fn law_error_decides_the_exit(
    run: RunView,
    outcomes: Seq<OutcomeView>,
    cap: u64,
    now: Seq<Seq<char>>,
    n: int,
    k: int,
)
    requires
        0 <= k < n <= outcomes.len(),
        outcomes[k].errors.len() > 0,
    ensures
        run_over(run, outcomes, cap, now, n).had_errors,
        exit_of(
            run_over(run, outcomes, cap, now, n).had_errors,
            run_over(run, outcomes, cap, now, n).total_changes,
        ) == Err::<(), i32>(EXIT_ERROR),
    decreases n,
{
    if k < n - 1 {
        law_error_decides_the_exit(run, outcomes, cap, now, n - 1, k);
    }
}

/// A run without errors ends well just where some file was changed.
pub proof fn law_clean_run_exits_by_matches(
    outcomes: Seq<OutcomeView>,
    log: Option<LogView>,
    cap: u64,
    now: Seq<Seq<char>>,
    n: int,
)
    requires
        0 <= n <= outcomes.len(),
        forall|k: int| #![trigger outcomes[k]]
            0 <= k < n ==> outcomes[k].errors.len() == 0 && outcomes[k].total >= 0,
    ensures
        ({
            let start = RunView { total_changes: 0, files_modified: 0, had_errors: false, log };
            let end = run_over(start, outcomes, cap, now, n);
            &&& !end.had_errors
            &&& end.total_changes >= 0
            &&& end.total_changes == 0 <==> forall|k: int| #![trigger outcomes[k]]
                0 <= k < n ==> outcomes[k].total == 0
            &&& exit_of(end.had_errors, end.total_changes) == if end.total_changes == 0 {
                Err(EXIT_NO_MATCHES)
            } else {
                Ok::<(), i32>(())
            }
        }),
    decreases n,
{
    if n > 0 {
        law_clean_run_exits_by_matches(outcomes, log, cap, now, n - 1);
        let start = RunView { total_changes: 0, files_modified: 0, had_errors: false, log };
        let before = run_over(start, outcomes, cap, now, n - 1);
        let end = run_over(start, outcomes, cap, now, n);
        let o = outcomes[n - 1];
        assert(o.errors.len() == 0 && o.total >= 0);
        if end.total_changes == 0 {
            assert(o.total == 0);
        } else if o.total == 0 {
            assert(before.total_changes != 0);
        }
    }
}

/// An operation of a script works on discovered files only, and on no backup
/// that the script made.
pub proof fn law_backups_are_left_alone(
    files: Seq<u64>,
    backups: Set<u64>,
    modified: Set<u64>,
    n: int,
    k: int,
)
    requires
        0 <= n <= files.len(),
        0 <= k < planned(files, backups, modified, n).len(),
    ensures
        !backups.contains(planned(files, backups, modified, n)[k].0),
        files.contains(planned(files, backups, modified, n)[k].0),
        planned(files, backups, modified, n)[k].1 == modified.contains(
            planned(files, backups, modified, n)[k].0,
        ),
    decreases n,
{
    if n > 0 {
        let before = planned(files, backups, modified, n - 1);
        if k < before.len() {
            law_backups_are_left_alone(files, backups, modified, n - 1, k);
        }
    }
}

/// One file that an operation of a script modifies: the name that its backup
/// gets, where it is backed up, and what the file then holds.
pub struct ScriptEdit {
    pub file: u64,
    pub backup: u64,
    pub bytes: Seq<u8>,
}

/// What files hold in the course of a script, and which file has which backup.
pub struct ScriptFiles {
    pub content: Map<u64, Seq<u8>>,
    pub backup_of: Map<u64, u64>,
}

impl ScriptFiles {
    /// The files that have been modified.
    pub open spec fn modified(self) -> Set<u64> {
        self.backup_of.dom()
    }

    /// The backups that have been made.
    pub open spec fn backups(self) -> Set<u64> {
        self.backup_of.values()
    }

    /// Whether an edit is one that a script makes: of a file that is planned,
    /// and where it is backed up, under a name that is free.
    pub open spec fn allows(self, e: ScriptEdit) -> bool {
        &&& self.content.dom().contains(e.file)
        &&& !self.backups().contains(e.file)
        &&& !self.modified().contains(e.file) ==> !self.content.dom().contains(e.backup)
    }

    /// What files hold behind an edit.
    pub open spec fn edited(self, e: ScriptEdit) -> ScriptFiles {
        if self.modified().contains(e.file) {
            ScriptFiles { content: self.content.insert(e.file, e.bytes), ..self }
        } else {
            ScriptFiles {
                content: self.content.insert(e.backup, self.content[e.file]).insert(
                    e.file,
                    e.bytes,
                ),
                backup_of: self.backup_of.insert(e.file, e.backup),
            }
        }
    }
}

/// What files hold behind the first `n` edits.
pub open spec fn files_after(start: Map<u64, Seq<u8>>, edits: Seq<ScriptEdit>, n: int) -> ScriptFiles
    decreases n,
{
    if n <= 0 {
        ScriptFiles { content: start, backup_of: Map::empty() }
    } else {
        files_after(start, edits, n - 1).edited(edits[n - 1])
    }
}

/// The backup of a file holds, at every point of a script, what the file held
/// before the script: each file is backed up before it is first modified, and
/// no backup is edited.
pub proof fn law_backups_show_the_start(
    start: Map<u64, Seq<u8>>,
    edits: Seq<ScriptEdit>,
    n: int,
    file: u64,
)
    requires
        0 <= n <= edits.len(),
        forall|k: int| #![trigger edits[k]]
            0 <= k < n ==> files_after(start, edits, k).allows(edits[k]),
        files_after(start, edits, n).modified().contains(file),
        start.dom().contains(file),
    ensures
        ({
            let end = files_after(start, edits, n);
            let b = end.backup_of[file];
            &&& end.backups().contains(b)
            &&& end.content.dom().contains(b)
            &&& end.content[b] == start[file]
        }),
    decreases n,
{
    lemma_untouched_files_are_unchanged(start, edits, n, file);
    if n > 0 {
        let before = files_after(start, edits, n - 1);
        let end = files_after(start, edits, n);
        let e = edits[n - 1];
        assert(before.allows(e));
        lemma_untouched_files_are_unchanged(start, edits, n - 1, file);
        if before.modified().contains(file) {
            law_backups_show_the_start(start, edits, n - 1, file);
            let b = before.backup_of[file];
            assert(before.backups().contains(b));
            assert(e.file != b);
            if !before.modified().contains(e.file) {
                assert(e.backup != b);
            }
            assert(end.backup_of[file] == b);
            assert(end.content[b] == before.content[b]);
        }
        assert(end.backup_of.dom().contains(file));
        assert(end.backups().contains(end.backup_of[file]));
    }
}

/// A file that is not modified holds what it held at the start.
proof fn lemma_untouched_files_are_unchanged(
    start: Map<u64, Seq<u8>>,
    edits: Seq<ScriptEdit>,
    n: int,
    file: u64,
)
    requires
        0 <= n <= edits.len(),
        forall|k: int| #![trigger edits[k]]
            0 <= k < n ==> files_after(start, edits, k).allows(edits[k]),
        start.dom().contains(file),
    ensures
        files_after(start, edits, n).content.dom().contains(file),
        !files_after(start, edits, n).modified().contains(file) ==> files_after(
            start,
            edits,
            n,
        ).content[file] == start[file],
    decreases n,
{
    if n > 0 {
        lemma_untouched_files_are_unchanged(start, edits, n - 1, file);
        let e = edits[n - 1];
        assert(files_after(start, edits, n - 1).allows(e));
    }
}

} // verus!
