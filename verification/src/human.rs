//! What a user is shown.
use vstd::prelude::*;

use crate::cli::Cli;
use crate::diff;
use crate::diff::{Change, ChangeView};
use crate::lines;
use crate::lines::split_lines;
use crate::strings;
use crate::strings::{owned, to_decimal};

verus! {

/// How many changes of a file are shown.
pub const MAX_PRINTED_CHANGES: usize = 50;

/// One line of a diff.
#[derive(Debug, Clone, PartialEq, Eq)]
pub enum DiffLine {
    /// The path of the file.
    Header(String),
    /// A line around a change.
    Context(String),
    /// A line as it was.
    Removed(String),
    /// A line as it is now.
    Added(String),
    /// An empty line behind a change.
    Blank,
    /// How many changes are not shown.
    More(usize),
}

/// What a [`DiffLine`] shows.
#[verifier::ext_equal]
pub enum DiffView {
    Header(Seq<char>),
    Context(Seq<char>),
    Removed(Seq<char>),
    Added(Seq<char>),
    Blank,
    More(int),
}

impl View for DiffLine {
    type V = DiffView;

    open spec fn view(&self) -> DiffView {
        match self {
            DiffLine::Header(s) => DiffView::Header(s@),
            DiffLine::Context(s) => DiffView::Context(s@),
            DiffLine::Removed(s) => DiffView::Removed(s@),
            DiffLine::Added(s) => DiffView::Added(s@),
            DiffLine::Blank => DiffView::Blank,
            DiffLine::More(n) => DiffView::More(*n as int),
        }
    }
}

/// The view of a diff.
pub open spec fn diff_view(v: Seq<DiffLine>) -> Seq<DiffView> {
    Seq::new(v.len(), |i: int| v[i]@)
}

/// Lines around a change.
pub open spec fn context_lines(ls: Seq<Seq<char>>) -> Seq<DiffView> {
    Seq::new(ls.len(), |i: int| DiffView::Context(ls[i]))
}

/// Lines as they are now.
pub open spec fn added_lines(ls: Seq<Seq<char>>) -> Seq<DiffView> {
    Seq::new(ls.len(), |i: int| DiffView::Added(ls[i]))
}

/// What is shown before a change.
pub open spec fn lead_in(c: ChangeView) -> Seq<DiffView> {
    match c.context {
        Some(context) => context_lines(context.before),
        None => Seq::empty(),
    }
}

/// What is shown behind a change.
pub open spec fn lead_out(c: ChangeView) -> Seq<DiffView> {
    match c.context {
        Some(context) => context_lines(context.after),
        None => Seq::empty(),
    }
}

/// What a line became.
pub open spec fn became(c: ChangeView) -> Seq<DiffView> {
    match c.after {
        Some(after) => added_lines(lines::lines(after)),
        None => Seq::empty(),
    }
}

/// What is shown of one change.
pub open spec fn change_lines(c: ChangeView) -> Seq<DiffView> {
    lead_in(c) + seq![DiffView::Removed(c.before)] + became(c) + lead_out(c) + seq![DiffView::Blank]
}

/// What is shown of the first `n` changes.
pub open spec fn changes_lines(cs: Seq<ChangeView>, n: int) -> Seq<DiffView>
    decreases n,
{
    if n <= 0 {
        Seq::empty()
    } else {
        changes_lines(cs, n - 1) + change_lines(cs[n - 1])
    }
}

/// How many of so many changes are shown.
pub open spec fn printed(len: nat) -> int {
    if len < MAX_PRINTED_CHANGES {
        len as int
    } else {
        MAX_PRINTED_CHANGES as int
    }
}

/// What is shown of a file in which `total` lines were changed: its path, its
/// first changes, and how many more there are.
pub open spec fn file_lines(path: Seq<char>, cs: Seq<ChangeView>, total: int) -> Seq<DiffView> {
    seq![DiffView::Header(path)] + changes_lines(cs, printed(cs.len())) + if total > printed(
        cs.len(),
    ) {
        seq![DiffView::More(total - printed(cs.len()))]
    } else {
        Seq::empty()
    }
}

/// Shows lines around a change.
fn show_context(out: &mut Vec<DiffLine>, ls: &Vec<String>)
    ensures
        diff_view(final(out)@) == diff_view(old(out)@) + context_lines(
            strings::strings_view(ls@),
        ),
{
    let total = ls.len();
    let mut i: usize = 0;
    proof {
        assert(diff_view(out@) =~= diff_view(old(out)@) + context_lines(
            strings::strings_view(ls@),
        ).take(0));
    }
    while i < total
        invariant
            total == ls@.len(),
            i <= total,
            diff_view(out@) == diff_view(old(out)@) + context_lines(
                strings::strings_view(ls@),
            ).take(i as int),
        decreases total - i,
    {
        let ghost before = out@;
        out.push(DiffLine::Context(ls[i].clone()));
        proof {
            let all = context_lines(strings::strings_view(ls@));
            assert(diff_view(out@) =~= diff_view(before).push(all[i as int]));
            assert(all.take(i + 1) =~= all.take(i as int).push(all[i as int]));
        }
        i += 1;
    }
    proof {
        let all = context_lines(strings::strings_view(ls@));
        assert(all.take(total as int) =~= all);
    }
}

/// Shows what a line became.
fn show_added(out: &mut Vec<DiffLine>, after: &str)
    ensures
        diff_view(final(out)@) == diff_view(old(out)@) + added_lines(lines::lines(after@)),
{
    let ls = split_lines(after);
    let total = ls.len();
    let mut i: usize = 0;
    let ghost all = added_lines(lines::lines(after@));
    proof {
        assert(diff_view(out@) =~= diff_view(old(out)@) + all.take(0));
    }
    while i < total
        invariant
            total == ls@.len(),
            i <= total,
            strings::strs_view(ls@) == lines::lines(after@),
            all == added_lines(lines::lines(after@)),
            diff_view(out@) == diff_view(old(out)@) + all.take(i as int),
        decreases total - i,
    {
        let ghost before = out@;
        out.push(DiffLine::Added(owned(ls[i])));
        proof {
            assert(strings::strs_view(ls@)[i as int] == ls@[i as int]@);
            assert(diff_view(out@) =~= diff_view(before).push(all[i as int]));
            assert(all.take(i + 1) =~= all.take(i as int).push(all[i as int]));
        }
        i += 1;
    }
    proof {
        assert(strings::strs_view(ls@).len() == ls@.len());
        assert(all.take(total as int) =~= all);
    }
}

/// Shows one change.
fn show_change(out: &mut Vec<DiffLine>, change: &Change)
    ensures
        diff_view(final(out)@) == diff_view(old(out)@) + change_lines(change@),
{
    let ghost start = diff_view(out@);
    if let Some(context) = &change.context {
        show_context(out, &context.before);
    }
    proof {
        assert(diff_view(out@) =~= start + lead_in(change@));
    }
    let ghost before = out@;
    out.push(DiffLine::Removed(change.before.clone()));
    proof {
        assert(diff_view(out@) =~= diff_view(before) + seq![DiffView::Removed(change@.before)]);
    }
    let ghost before = diff_view(out@);
    if let Some(after) = &change.after {
        show_added(out, after.as_str());
    }
    proof {
        assert(diff_view(out@) =~= before + became(change@));
    }
    let ghost before = diff_view(out@);
    if let Some(context) = &change.context {
        show_context(out, &context.after);
    }
    proof {
        assert(diff_view(out@) =~= before + lead_out(change@));
    }
    let ghost before = out@;
    out.push(DiffLine::Blank);
    proof {
        assert(diff_view(out@) =~= diff_view(before) + seq![DiffView::Blank]);
        assert(diff_view(out@) =~= start + change_lines(change@));
    }
}

/// What is shown of a file in which `total_changes` lines were changed, of
/// which `changes` may hold only the first.
pub fn file_diff(path: &str, changes: &[Change], total_changes: usize) -> (r: Vec<DiffLine>)
    ensures
        diff_view(r@) == file_lines(
            path@,
            diff::changes_view(changes@),
            total_changes as int,
        ),
{
    let mut out: Vec<DiffLine> = Vec::new();
    out.push(DiffLine::Header(owned(path)));
    let ghost cs = diff::changes_view(changes@);
    let len = changes.len();
    let shown: usize = if len < MAX_PRINTED_CHANGES {
        len
    } else {
        MAX_PRINTED_CHANGES
    };
    let mut i: usize = 0;
    proof {
        assert(diff_view(out@) =~= seq![DiffView::Header(path@)] + changes_lines(cs, 0));
    }
    while i < shown
        invariant
            shown <= len == changes@.len(),
            i <= shown,
            cs == diff::changes_view(changes@),
            diff_view(out@) == seq![DiffView::Header(path@)] + changes_lines(cs, i as int),
        decreases shown - i,
    {
        let ghost before = diff_view(out@);
        show_change(&mut out, &changes[i]);
        proof {
            assert(cs[i as int] == changes@[i as int]@);
            assert(diff_view(out@) =~= seq![DiffView::Header(path@)] + changes_lines(cs, i + 1));
        }
        i += 1;
    }
    let ghost before = out@;
    if total_changes > shown {
        out.push(DiffLine::More(total_changes - shown));
        proof {
            assert(diff_view(out@) =~= diff_view(before) + seq![
                DiffView::More(total_changes - shown),
            ]);
        }
    }
    proof {
        assert(diff_view(out@) =~= file_lines(path@, cs, total_changes as int));
    }
    out
}

/// What a run says at its end.
pub open spec fn summary_text(files: nat, total: nat, dry_run: bool) -> Seq<char> {
    if dry_run {
        "ripsed: dry run — "@ + strings::decimal(total) + " change(s) in "@ + strings::decimal(files)
            + " file(s) (not applied)"@
    } else {
        "ripsed: "@ + strings::decimal(total) + " change(s) applied in "@ + strings::decimal(files)
            + " file(s)"@
    }
}

/// What a run says at its end.
pub fn summary(files_matched: usize, total_changes: usize, dry_run: bool) -> (r: String)
    ensures
        r@ == summary_text(files_matched as nat, total_changes as nat, dry_run),
{
    if dry_run {
        let mut s = owned("ripsed: dry run — ");
        s.append(to_decimal(total_changes).as_str());
        s.append(" change(s) in ");
        s.append(to_decimal(files_matched).as_str());
        s.append(" file(s) (not applied)");
        s
    } else {
        let mut s = owned("ripsed: ");
        s.append(to_decimal(total_changes).as_str());
        s.append(" change(s) applied in ");
        s.append(to_decimal(files_matched).as_str());
        s.append(" file(s)");
        s
    }
}

// ---------------------------------------------------------------------------
// Questions
// ---------------------------------------------------------------------------

/// One line of what is shown before a user is asked about a file.
#[derive(Debug, Clone, PartialEq, Eq)]
pub enum PromptLine {
    /// The path of the file, and how many changes there are.
    Heading { path: String, count: String },
    /// The number of the line that a change is about.
    Line(usize),
    /// The line as it is.
    Removed(String),
    /// The line as it would be.
    Added(String),
}

/// What a [`PromptLine`] shows.
#[verifier::ext_equal]
pub enum PromptView {
    Heading { path: Seq<char>, count: Seq<char> },
    Line(int),
    Removed(Seq<char>),
    Added(Seq<char>),
}

impl View for PromptLine {
    type V = PromptView;

    open spec fn view(&self) -> PromptView {
        match self {
            PromptLine::Heading { path, count } => PromptView::Heading {
                path: path@,
                count: count@,
            },
            PromptLine::Line(n) => PromptView::Line(*n as int),
            PromptLine::Removed(s) => PromptView::Removed(s@),
            PromptLine::Added(s) => PromptView::Added(s@),
        }
    }
}

/// The view of what is shown before a question.
pub open spec fn prompt_view(v: Seq<PromptLine>) -> Seq<PromptView> {
    Seq::new(v.len(), |i: int| v[i]@)
}

/// How many changes there are, in words.
pub open spec fn count_text(n: nat) -> Seq<char> {
    strings::decimal(n) + if n == 1 {
        " change"@
    } else {
        " changes"@
    }
}

/// What is asked about one change.
pub open spec fn asked(c: ChangeView) -> Seq<PromptView> {
    seq![PromptView::Line(c.line), PromptView::Removed(c.before)] + match c.after {
        Some(after) => seq![PromptView::Added(after)],
        None => Seq::empty(),
    }
}

/// What is asked about the first `n` changes.
pub open spec fn all_asked(cs: Seq<ChangeView>, n: int) -> Seq<PromptView>
    decreases n,
{
    if n <= 0 {
        Seq::empty()
    } else {
        all_asked(cs, n - 1) + asked(cs[n - 1])
    }
}

/// What is shown before a user is asked about a file.
pub open spec fn prompt_of(path: Seq<char>, cs: Seq<ChangeView>) -> Seq<PromptView> {
    seq![PromptView::Heading { path, count: count_text(cs.len()) }] + all_asked(
        cs,
        cs.len() as int,
    )
}

/// What is shown before a user is asked about a file.
pub fn confirm_lines(path: &str, changes: &[Change]) -> (r: Vec<PromptLine>)
    ensures
        prompt_view(r@) == prompt_of(path@, diff::changes_view(changes@)),
{
    let total = changes.len();
    let mut count = to_decimal(total);
    if total == 1 {
        count.append(" change");
    } else {
        count.append(" changes");
    }
    let ghost cs = diff::changes_view(changes@);
    let ghost heading = seq![PromptView::Heading { path: path@, count: count_text(cs.len()) }];
    let mut out: Vec<PromptLine> = Vec::new();
    out.push(PromptLine::Heading { path: owned(path), count });
    proof {
        assert(prompt_view(out@) =~= heading + all_asked(cs, 0));
    }
    let mut i: usize = 0;
    while i < total
        invariant
            total == changes@.len(),
            i <= total,
            cs == diff::changes_view(changes@),
            prompt_view(out@) == heading + all_asked(cs, i as int),
        decreases total - i,
    {
        let change = &changes[i];
        let ghost before = prompt_view(out@);
        out.push(PromptLine::Line(change.line));
        out.push(PromptLine::Removed(change.before.clone()));
        if let Some(after) = &change.after {
            out.push(PromptLine::Added(after.clone()));
        }
        proof {
            assert(cs[i as int] == change@);
            assert(prompt_view(out@) =~= before + asked(change@));
            assert(prompt_view(out@) =~= heading + all_asked(cs, i + 1));
        }
        i += 1;
    }
    out
}

// ---------------------------------------------------------------------------
// The end of a run
// ---------------------------------------------------------------------------

/// Whether changes are shown as they are made.
pub fn shows_diffs(cli: &Cli) -> (b: bool)
    ensures
        b == (!cli.count && !cli.quiet),
{
    !cli.count && !cli.quiet
}

/// What a run says at its end, if anything.
#[derive(Debug, Clone, PartialEq, Eq)]
pub enum Closing {
    /// The number of changes, on standard output.
    Count(usize),
    /// A summary, on standard error.
    Summary(String),
    Silent,
}

/// What a run says at its end: the number of changes where only that is asked
/// for, otherwise a summary, unless it is to be quiet.
pub fn closing(cli: &Cli, files_modified: usize, total_changes: usize) -> (c: Closing)
    ensures
        if cli.count {
            c == Closing::Count(total_changes)
        } else if cli.quiet {
            c is Silent
        } else {
            c matches Closing::Summary(s) && s@ == summary_text(
                files_modified as nat,
                total_changes as nat,
                cli.dry_run,
            )
        },
{
    if cli.count {
        Closing::Count(total_changes)
    } else if cli.quiet {
        Closing::Silent
    } else {
        Closing::Summary(summary(files_modified, total_changes, cli.dry_run))
    }
}

// ---------------------------------------------------------------------------
// Laws
// ---------------------------------------------------------------------------

/// How many changes the first `n` lines of a diff show.
pub open spec fn shown_changes(d: Seq<DiffView>, n: int) -> nat
    decreases n,
{
    if n <= 0 {
        0
    } else {
        shown_changes(d, n - 1) + if d[n - 1] is Removed {
            1nat
        } else {
            0nat
        }
    }
}

/// What two parts of a diff show adds up.
proof fn lemma_shown_append(a: Seq<DiffView>, b: Seq<DiffView>, n: int)
    requires
        0 <= n <= b.len(),
    ensures
        shown_changes(a + b, (a.len() + n) as int) == shown_changes(a, a.len() as int)
            + shown_changes(b, n),
    decreases n,
{
    if n > 0 {
        lemma_shown_append(a, b, n - 1);
    } else {
        lemma_shown_prefix(a, b, a.len() as int);
    }
}

proof fn lemma_shown_prefix(a: Seq<DiffView>, b: Seq<DiffView>, n: int)
    requires
        0 <= n <= a.len(),
    ensures
        shown_changes(a + b, n) == shown_changes(a, n),
    decreases n,
{
    if n > 0 {
        lemma_shown_prefix(a, b, n - 1);
    }
}

/// Lines without one that was removed show no change.
proof fn lemma_shown_none(d: Seq<DiffView>, n: int)
    requires
        0 <= n <= d.len(),
        forall|i: int| 0 <= i < d.len() ==> !(#[trigger] d[i] is Removed),
    ensures
        shown_changes(d, n) == 0,
    decreases n,
{
    if n > 0 {
        lemma_shown_none(d, n - 1);
    }
}

/// The lines of one change show one change.
proof fn lemma_change_shown(c: ChangeView)
    ensures
        shown_changes(change_lines(c), change_lines(c).len() as int) == 1,
{
    let removed = seq![DiffView::Removed(c.before)];
    let blank = seq![DiffView::Blank];
    lemma_shown_none(lead_in(c), lead_in(c).len() as int);
    lemma_shown_none(became(c), became(c).len() as int);
    lemma_shown_none(lead_out(c), lead_out(c).len() as int);
    lemma_shown_none(blank, 1);
    reveal_with_fuel(shown_changes, 2);
    assert(shown_changes(removed, 1) == 1);
    lemma_shown_append(lead_in(c), removed, 1);
    lemma_shown_append(lead_in(c) + removed, became(c), became(c).len() as int);
    lemma_shown_append(lead_in(c) + removed + became(c), lead_out(c), lead_out(c).len() as int);
    lemma_shown_append(lead_in(c) + removed + became(c) + lead_out(c), blank, 1);
}

/// The lines of several changes show as many.
proof fn lemma_changes_shown(cs: Seq<ChangeView>, n: int)
    requires
        0 <= n <= cs.len(),
    ensures
        shown_changes(changes_lines(cs, n), changes_lines(cs, n).len() as int) == n,
    decreases n,
{
    if n > 0 {
        lemma_changes_shown(cs, n - 1);
        lemma_change_shown(cs[n - 1]);
        lemma_shown_append(
            changes_lines(cs, n - 1),
            change_lines(cs[n - 1]),
            change_lines(cs[n - 1]).len() as int,
        );
    }
}

/// No change goes unmentioned: those that are shown and those that are counted
/// as more make up the total.
pub proof fn law_diff_accounts_for_all(path: Seq<char>, cs: Seq<ChangeView>, total: int)
    requires
        total >= cs.len(),
    ensures
        ({
            let d = file_lines(path, cs, total);
            let more = match d.last() {
                DiffView::More(n) => n,
                _ => 0,
            };
            shown_changes(d, d.len() as int) + more == total
        }),
{
    let d = file_lines(path, cs, total);
    let n = printed(cs.len());
    let header = seq![DiffView::Header(path)];
    let body = changes_lines(cs, n);
    let tail = if total > n {
        seq![DiffView::More(total - n)]
    } else {
        Seq::empty()
    };
    lemma_changes_shown(cs, n);
    lemma_shown_none(header, 1);
    lemma_shown_none(tail, tail.len() as int);
    lemma_shown_append(header, body, body.len() as int);
    lemma_shown_append(header + body, tail, tail.len() as int);
    assert(d =~= header + body + tail);
    if total <= n {
        assert(d =~= header + body);
        if n > 0 {
            assert(change_lines(cs[n - 1]).last() == DiffView::Blank);
            assert(body.last() == DiffView::Blank);
            assert(d.last() == body.last());
        } else {
            assert(body =~= Seq::<DiffView>::empty());
            assert(d.last() == header[0]);
        }
    }
}

} // verus!
