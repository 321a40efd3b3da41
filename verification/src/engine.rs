//! Applying an operation to a text, line by line.
use vstd::prelude::*;
use vstd::utf8::*;

use crate::diff;
use crate::diff::{Change, FileChanges, OpResult, ResultView};
use crate::edits;
pub use crate::edits::EngineOutput;
use crate::edits::{build_context, has_final_newline, join_lines, unchanged, LineEdit, OutputView};
use crate::error;
use crate::error::RipsedError;
use crate::lines;
use crate::lines::{find_newline, split_lines};
use crate::matcher;
use crate::matcher::{Matcher, MatcherView};
use crate::multiline;
use crate::multiline::apply_multiline;
use crate::offsets;
use crate::operation;
use crate::operation::{Action, Op, OpView, RangeSpec, RangeView, ReplaceCount};
use crate::range;
use crate::range::RangeFilter;
use crate::spans;
use crate::splice;
use crate::splice::{splice_eligible, try_splice};
use crate::strings;
use crate::strings::{owned, str_eq};
use crate::transform;
use crate::transform::{apply_transform, dedent_line, indentation};
use crate::undo::UndoEntry;

verus! {

// ---------------------------------------------------------------------------
// Line endings
// ---------------------------------------------------------------------------

/// How many of the first `n` characters are a `\n` behind a `\r`.
pub open spec fn crlf_count(s: Seq<char>, n: int) -> nat
    decreases n,
{
    if n <= 0 {
        0
    } else {
        crlf_count(s, n - 1) + if s[n - 1] == '\n' && n >= 2 && s[n - 2] == '\r' {
            1nat
        } else {
            0nat
        }
    }
}

/// How many of the first `n` characters are a `\n` not behind a `\r`.
pub open spec fn bare_lf_count(s: Seq<char>, n: int) -> nat
    decreases n,
{
    if n <= 0 {
        0
    } else {
        bare_lf_count(s, n - 1) + if s[n - 1] == '\n' && !(n >= 2 && s[n - 2] == '\r') {
            1nat
        } else {
            0nat
        }
    }
}

/// Whether `\r\n` is strictly more common than a bare `\n`.
pub open spec fn mostly_crlf(s: Seq<char>) -> bool {
    crlf_count(s, s.len() as int) > bare_lf_count(s, s.len() as int)
}

/// The separator that lines of a text are joined with again: the more common
/// line ending, and `\n` where neither is.
pub open spec fn separator(s: Seq<char>) -> Seq<char> {
    if mostly_crlf(s) {
        "\r\n"@
    } else {
        "\n"@
    }
}

/// A stretch without newlines changes neither count.
proof fn lemma_counts_skip(s: Seq<char>, i: int, j: int)
    requires
        0 <= i <= j <= s.len(),
        forall|k: int| i <= k < j ==> s[k] != '\n',
    ensures
        crlf_count(s, j) == crlf_count(s, i),
        bare_lf_count(s, j) == bare_lf_count(s, i),
    decreases j - i,
{
    if i < j {
        lemma_counts_skip(s, i, j - 1);
    }
}

/// Counts `\r\n` and bare `\n` terminators.
pub fn line_ending_counts(text: &str) -> (r: (usize, usize))
    ensures
        r.0 == crlf_count(text@, text@.len() as int),
        r.1 == bare_lf_count(text@, text@.len() as int),
{
    let ghost s = text@;
    let bytes = text.as_bytes();
    let total = bytes.len();
    let mut crlf: usize = 0;
    let mut bare_lf: usize = 0;
    let mut pos: usize = 0;
    let ghost mut i: int = 0;
    let mut open = true;
    proof {
        offsets::lemma_byte_pos_ends(s);
    }
    while open
        invariant
            s == text@,
            bytes@ == encode_utf8(s),
            total == bytes@.len(),
            0 <= i <= s.len(),
            pos == offsets::byte_pos(s, i),
            pos <= total,
            crlf + bare_lf <= pos,
            crlf == crlf_count(s, i),
            bare_lf == bare_lf_count(s, i),
            !open ==> i == s.len(),
        decreases total - pos + (if open {
            1int
        } else {
            0int
        }),
    {
        let at = find_newline(text, pos, Ghost(i));
        let ghost e = lines::first_newline(s, i);
        proof {
            lines::lemma_first_newline(s, i);
            lemma_counts_skip(s, i, e);
            offsets::lemma_byte_pos_ends(s);
            offsets::lemma_byte_pos_injective(s, e, s.len() as int);
        }
        if at >= total {
            open = false;
            pos = total;
            proof {
                i = s.len() as int;
            }
        } else {
            let after_cr = at > 0 && bytes[at - 1] == 13u8;
            proof {
                offsets::lemma_ascii_at(s, e);
                offsets::lemma_byte_pos_injective(s, 0, e);
                if after_cr {
                    let k = offsets::lemma_ascii_byte(s, at - 1);
                    offsets::lemma_ascii_at(s, k);
                    offsets::lemma_byte_pos_injective(s, k + 1, e);
                } else if e >= 1 && s[e - 1] == '\r' {
                    offsets::lemma_ascii_at(s, e - 1);
                }
                offsets::lemma_byte_pos_mono(s, i, e);
                offsets::lemma_byte_pos_mono(s, e + 1, s.len() as int);
                i = e + 1;
            }
            if after_cr {
                crlf += 1;
            } else {
                bare_lf += 1;
            }
            pos = at + 1;
        }
    }
    (crlf, bare_lf)
}

/// Whether a text predominantly uses `\r\n` line endings. Equal counts,
/// including none at all, mean `\n`.
pub fn uses_crlf(text: &str) -> (b: bool)
    ensures
        b == mostly_crlf(text@),
{
    let (crlf, bare_lf) = line_ending_counts(text);
    crlf > bare_lf
}

// ---------------------------------------------------------------------------
// One line
// ---------------------------------------------------------------------------

/// How many occurrences a replace may touch in a whole text (`None`: any number).
pub open spec fn replace_budget_of(action: Action) -> Option<int> {
    match action {
        Action::Replace { count: ReplaceCount::FirstInFile, .. } => Some(1),
        Action::Replace { count: ReplaceCount::Max(n), .. } => Some(n as int),
        _ => None,
    }
}

/// How many occurrences a replace may touch on one line (0: any number).
pub open spec fn line_limit(count: ReplaceCount, budget: Option<int>) -> int {
    if count == ReplaceCount::FirstPerLine {
        1
    } else {
        match budget {
            Some(b) => b,
            None => 0,
        }
    }
}

/// The occurrences on one line that a replace touches.
pub open spec fn line_spans(
    m: MatcherView,
    line: Seq<char>,
    replace: Seq<char>,
    count: ReplaceCount,
    budget: Option<int>,
) -> Seq<spans::Span> {
    if count != ReplaceCount::FirstPerLine && budget == Some(0int) {
        Seq::empty()
    } else {
        spans::limited(m.spans(line, replace), line_limit(count, budget))
    }
}

/// Puts `new_line` in place of a line, unless they are the same.
pub open spec fn put_changed(line: Seq<char>, new_line: Seq<char>) -> LineEdit {
    if new_line == line {
        LineEdit::Keep
    } else {
        LineEdit::Put { line: new_line }
    }
}

/// What an operation makes of a line, with `budget` occurrences left to replace.
pub open spec fn line_edit(action: Action, m: MatcherView, line: Seq<char>, budget: Option<int>) -> LineEdit {
    match action {
        Action::Replace { replace, count, .. } => {
            let used = line_spans(m, line, replace, count, budget);
            if used.len() == 0 {
                LineEdit::Keep
            } else {
                LineEdit::Put { line: spans::splice(line, used) }
            }
        },
        _ => if !m.is_match(line) {
            LineEdit::Keep
        } else {
            match action {
                Action::Replace { .. } => LineEdit::Keep,
                Action::Delete { .. } => LineEdit::Drop,
                Action::InsertAfter { content } => LineEdit::After { content },
                Action::InsertBefore { content } => LineEdit::Before { content },
                Action::ReplaceLine { content } => LineEdit::Put { line: content },
                Action::Transform { mode } => put_changed(
                    line,
                    transform::transform_line(line, m, mode),
                ),
                Action::Surround { prefix, suffix } => put_changed(line, prefix + line + suffix),
                Action::Indent { amount, use_tabs } => put_changed(
                    line,
                    transform::indent_text(amount as nat, use_tabs) + line,
                ),
                Action::Dedent { amount, use_tabs } => put_changed(
                    line,
                    transform::dedented(line, amount as nat, use_tabs),
                ),
            }
        },
    }
}

/// The occurrences left to replace behind a line.
pub open spec fn budget_after(action: Action, m: MatcherView, line: Seq<char>, budget: Option<int>) -> Option<
    int,
> {
    match (action, budget) {
        (Action::Replace { replace, count, .. }, Some(b)) => {
            let used = line_spans(m, line, replace, count, budget).len();
            Some(
                if used > b {
                    0
                } else {
                    b - used
                },
            )
        },
        _ => budget,
    }
}

/// What is carried from line to line: whether a region of a pattern range is
/// open, and how many occurrences are left to replace.
#[verifier::ext_equal]
pub struct PassState {
    pub active: bool,
    pub budget: Option<int>,
}

/// The state before the first line.
pub open spec fn pass_start(action: Action) -> PassState {
    PassState { active: false, budget: replace_budget_of(action) }
}

/// What becomes of a line in a given state.
pub open spec fn step_edit(
    action: Action,
    m: MatcherView,
    range: Option<RangeView>,
    state: PassState,
    line_num: int,
    line: Seq<char>,
) -> LineEdit {
    if range::admits(range, state.active, line_num, line) {
        line_edit(action, m, line, state.budget)
    } else {
        LineEdit::Keep
    }
}

/// The state behind a line.
pub open spec fn step_state(
    action: Action,
    m: MatcherView,
    range: Option<RangeView>,
    state: PassState,
    line_num: int,
    line: Seq<char>,
) -> PassState {
    PassState {
        active: range::active_after(range, state.active, line),
        budget: if range::admits(range, state.active, line_num, line) {
            budget_after(action, m, line, state.budget)
        } else {
            state.budget
        },
    }
}

/// The state before line `i`.
pub open spec fn state_at(
    action: Action,
    m: MatcherView,
    range: Option<RangeView>,
    ls: Seq<Seq<char>>,
    i: int,
) -> PassState
    decreases i,
{
    if i <= 0 {
        pass_start(action)
    } else {
        step_state(action, m, range, state_at(action, m, range, ls, i - 1), i, ls[i - 1])
    }
}

/// What becomes of line `i`.
pub open spec fn edit_at(
    action: Action,
    m: MatcherView,
    range: Option<RangeView>,
    ls: Seq<Seq<char>>,
    i: int,
) -> LineEdit {
    step_edit(action, m, range, state_at(action, m, range, ls, i), i + 1, ls[i])
}

/// What becomes of each line.
pub open spec fn pass_edits(
    action: Action,
    m: MatcherView,
    range: Option<RangeView>,
    ls: Seq<Seq<char>>,
) -> Seq<LineEdit> {
    Seq::new(ls.len(), |i: int| edit_at(action, m, range, ls, i))
}

/// The output of a pass over the lines of a text.
pub open spec fn line_output(
    text: Seq<char>,
    action: Action,
    m: MatcherView,
    range: Option<RangeView>,
    context_lines: int,
) -> OutputView {
    edits::edited_output(
        text,
        pass_edits(action, m, range, lines::lines(text)),
        separator(text),
        context_lines,
    )
}

/// What one operation decided for one line.
enum LineAction {
    Unchanged,
    Replaced { new_line: String },
    Deleted,
    InsertedAfter { content: String },
    InsertedBefore { content: String },
}

impl LineAction {
    spec fn edit(self) -> LineEdit {
        match self {
            LineAction::Unchanged => LineEdit::Keep,
            LineAction::Replaced { new_line } => LineEdit::Put { line: new_line@ },
            LineAction::Deleted => LineEdit::Drop,
            LineAction::InsertedAfter { content } => LineEdit::After { content: content@ },
            LineAction::InsertedBefore { content } => LineEdit::Before { content: content@ },
        }
    }
}

/// The budget as a mathematical number.
pub open spec fn budget_view(budget: Option<usize>) -> Option<int> {
    match budget {
        Some(b) => Some(b as int),
        None => None,
    }
}

/// How many occurrences an operation may touch in a whole text.
pub fn replace_budget(op: &Op) -> (r: Option<usize>)
    ensures
        budget_view(r) == replace_budget_of(op@.action),
{
    match op {
        Op::Replace { count, .. } => match *count {
            ReplaceCount::All => None,
            ReplaceCount::FirstPerLine => None,
            ReplaceCount::FirstInFile => Some(1),
            ReplaceCount::Max(n) => Some(n),
        },
        _ => None,
    }
}

/// Substitutes matched text within the line, as far as the budget goes.
fn apply_replace(
    line: &str,
    m: &Matcher,
    replace: &str,
    count: ReplaceCount,
    budget: &mut Option<usize>,
) -> (r: LineAction)
    ensures
        ({
            let used = line_spans(m@, line@, replace@, count, budget_view(*old(budget)));
            &&& r.edit() == (if used.len() == 0 {
                LineEdit::Keep
            } else {
                LineEdit::Put { line: spans::splice(line@, used) }
            })
            &&& budget_view(*final(budget)) == (match budget_view(*old(budget)) {
                Some(b) => Some(
                    if used.len() > b {
                        0
                    } else {
                        b - used.len()
                    },
                ),
                None => None,
            })
        }),
{
    let first_per_line = match count {
        ReplaceCount::FirstPerLine => true,
        _ => false,
    };
    let limit: usize = if first_per_line {
        1
    } else {
        match *budget {
            Some(remaining) => {
                if remaining == 0 {
                    return LineAction::Unchanged;
                }
                remaining
            },
            None => 0,
        }
    };
    match m.replace_n(line, replace, limit) {
        Some((replaced, occurrences)) => {
            match *budget {
                Some(remaining) => {
                    *budget = Some(
                        if occurrences > remaining {
                            0
                        } else {
                            remaining - occurrences
                        },
                    );
                },
                None => {},
            }
            LineAction::Replaced { new_line: replaced }
        },
        None => LineAction::Unchanged,
    }
}

/// Puts a new line in place of a line, unless they are the same.
fn replaced_unless_same(line: &str, new_line: String) -> (r: LineAction)
    ensures
        r.edit() == put_changed(line@, new_line@),
{
    if str_eq(new_line.as_str(), line) {
        LineAction::Unchanged
    } else {
        LineAction::Replaced { new_line }
    }
}

/// Wraps a line with a prefix and a suffix.
fn apply_surround(line: &str, prefix: &str, suffix: &str) -> (r: LineAction)
    ensures
        r.edit() == put_changed(line@, prefix@ + line@ + suffix@),
{
    let mut new_line = owned(prefix);
    new_line.append(line);
    new_line.append(suffix);
    replaced_unless_same(line, new_line)
}

/// Puts indentation before a line.
fn apply_indent(line: &str, amount: usize, use_tabs: bool) -> (r: LineAction)
    ensures
        r.edit() == put_changed(line@, transform::indent_text(amount as nat, use_tabs) + line@),
{
    let mut new_line = indentation(amount, use_tabs);
    new_line.append(line);
    replaced_unless_same(line, new_line)
}

/// Routes one line to what the operation does with it.
fn dispatch_op(op: &Op, line: &str, m: &Matcher, budget: &mut Option<usize>) -> (r: LineAction)
    ensures
        r.edit() == line_edit(op@.action, m@, line@, budget_view(*old(budget))),
        budget_view(*final(budget)) == budget_after(
            op@.action,
            m@,
            line@,
            budget_view(*old(budget)),
        ),
{
    match op {
        Op::Replace { replace, count, .. } => apply_replace(
            line,
            m,
            replace.as_str(),
            *count,
            budget,
        ),
        _ => {
            if !m.is_match(line) {
                return LineAction::Unchanged;
            }
            match op {
                Op::Replace { .. } => LineAction::Unchanged,
                Op::Delete { .. } => LineAction::Deleted,
                Op::InsertAfter { content, .. } => LineAction::InsertedAfter {
                    content: content.clone(),
                },
                Op::InsertBefore { content, .. } => LineAction::InsertedBefore {
                    content: content.clone(),
                },
                Op::ReplaceLine { content, .. } => LineAction::Replaced {
                    new_line: content.clone(),
                },
                Op::Transform { mode, .. } => replaced_unless_same(
                    line,
                    apply_transform(line, m, *mode),
                ),
                Op::Surround { prefix, suffix, .. } => apply_surround(
                    line,
                    prefix.as_str(),
                    suffix.as_str(),
                ),
                Op::Indent { amount, use_tabs, .. } => apply_indent(line, *amount, *use_tabs),
                Op::Dedent { amount, use_tabs, .. } => replaced_unless_same(
                    line,
                    dedent_line(line, *amount, *use_tabs),
                ),
            }
        },
    }
}

// ---------------------------------------------------------------------------
// A whole text
// ---------------------------------------------------------------------------

/// The text that a change says a line became.
fn after_text(action: &LineAction, line: &str, sep: &str) -> (r: Option<String>)
    ensures
        error::opt_view(r) == edits::edit_after(action.edit(), line@, sep@),
{
    match action {
        LineAction::Unchanged => Some(owned(line)),
        LineAction::Replaced { new_line } => Some(new_line.clone()),
        LineAction::Deleted => None,
        LineAction::InsertedAfter { content } => {
            let mut s = owned(line);
            s.append(sep);
            s.append(content.as_str());
            Some(s)
        },
        LineAction::InsertedBefore { content } => {
            let mut s = content.clone();
            s.append(sep);
            s.append(line);
            Some(s)
        },
    }
}

/// Appends the lines that stand in place of an edited line.
fn emit(out: &mut Vec<String>, action: LineAction, line: &str)
    ensures
        strings::strings_view(final(out)@) == strings::strings_view(old(out)@) + edits::emitted(
            action.edit(),
            line@,
        ),
{
    match action {
        LineAction::Unchanged => {
            out.push(owned(line));
        },
        LineAction::Replaced { new_line } => {
            out.push(new_line);
        },
        LineAction::Deleted => {},
        LineAction::InsertedAfter { content } => {
            out.push(owned(line));
            out.push(content);
        },
        LineAction::InsertedBefore { content } => {
            out.push(content);
            out.push(owned(line));
        },
    }
    proof {
        assert(strings::strings_view(out@) =~= strings::strings_view(old(out)@) + edits::emitted(
            action.edit(),
            line@,
        ));
    }
}

/// Runs an operation over the lines of a text.
fn apply_lines(
    text: &str,
    op: &Op,
    m: &Matcher,
    filter: RangeFilter,
    crlf: bool,
    context_lines: usize,
) -> (r: EngineOutput)
    requires
        !filter.active(),
        crlf == mostly_crlf(text@),
    ensures
        r@ == line_output(text@, op@.action, m@, filter.range(), context_lines as int),
{
    let line_sep = if crlf {
        "\r\n"
    } else {
        "\n"
    };
    let all = split_lines(text);
    let ghost ls = lines::lines(text@);
    let ghost rng = filter.range();
    let ghost act = op@.action;
    let ghost es = pass_edits(act, m@, rng, ls);
    let mut filter = filter;
    let mut out: Vec<String> = Vec::new();
    let mut changes: Vec<Change> = Vec::new();
    let mut budget = replace_budget(op);
    let mut idx: usize = 0;
    proof {
        assert(strings::strings_view(out@) =~= edits::edit_lines(ls, es, 0));
        assert(diff::changes_view(changes@) =~= edits::edit_changes(
            ls,
            es,
            line_sep@,
            context_lines as int,
            0,
        ));
    }
    while idx < all.len()
        invariant
            ls == strings::strs_view(all@),
            act == op@.action,
            es == pass_edits(act, m@, rng, ls),
            idx <= all@.len(),
            filter.range() == rng,
            (PassState { active: filter.active(), budget: budget_view(budget) }) == state_at(
                act,
                m@,
                rng,
                ls,
                idx as int,
            ),
            strings::strings_view(out@) == edits::edit_lines(ls, es, idx as int),
            diff::changes_view(changes@) == edits::edit_changes(
                ls,
                es,
                line_sep@,
                context_lines as int,
                idx as int,
            ),
        decreases all@.len() - idx,
    {
        let line = all[idx];
        let line_num: usize = idx + 1;
        let ghost st = state_at(act, m@, rng, ls, idx as int);
        let ghost changes_before = changes@;
        proof {
            assert(ls[idx as int] == line@);
            assert(es[idx as int] == step_edit(act, m@, rng, st, idx + 1, line@));
        }
        let action = if filter.admits(line_num, line) {
            dispatch_op(op, line, m, &mut budget)
        } else {
            LineAction::Unchanged
        };
        proof {
            assert(action.edit() == es[idx as int]);
            assert((PassState { active: filter.active(), budget: budget_view(budget) })
                =~= state_at(act, m@, rng, ls, idx + 1));
        }
        let changed = match &action {
            LineAction::Unchanged => false,
            _ => true,
        };
        if changed {
            let context = if context_lines == 0 || changes.len() >= edits::MAX_CONTEXTED_CHANGES {
                None
            } else {
                Some(build_context(&all, idx, context_lines))
            };
            let after = after_text(&action, line, line_sep);
            changes.push(Change { line: line_num, before: owned(line), after, context });
            proof {
                assert(diff::changes_view(changes@) =~= diff::changes_view(changes_before).push(
                    changes@.last()@,
                ));
            }
        }
        emit(&mut out, action, line);
        idx += 1;
    }
    proof {
        assert(ls.len() == all@.len());
    }
    if changes.len() == 0 {
        return EngineOutput { text: None, changes, undo: None };
    }
    let mut joined = join_lines(&out, line_sep);
    if out.len() > 0 && has_final_newline(text) {
        joined.append(line_sep);
    } else {
        proof {
            assert(joined@ + Seq::<char>::empty() =~= joined@);
        }
    }
    EngineOutput {
        text: Some(joined),
        changes,
        undo: Some(UndoEntry { original_text: owned(text) }),
    }
}

/// The error of a range in a whole-buffer operation.
pub open spec fn range_in_multiline_error() -> error::ErrorView {
    error::invalid_request_error(
        "ranges are not supported in multiline mode"@,
        "multiline patterns match against the whole buffer; remove the range or the multiline flag"@,
    )
}

/// The error of a limit per line in a whole-buffer operation.
pub open spec fn per_line_in_multiline_error() -> error::ErrorView {
    error::invalid_request_error(
        "first_per_line count is not supported in multiline mode"@,
        "per-line counting has no meaning when matching the whole buffer; use first_in_file or {\"max\": n} instead"@,
    )
}

/// What applying an operation to a text ends in.
pub open spec fn apply_result(
    text: Seq<char>,
    op: OpView,
    m: MatcherView,
    range: Option<RangeView>,
    context_lines: int,
) -> Result<OutputView, error::ErrorView> {
    if op.multiline() {
        if range is Some {
            Err(range_in_multiline_error())
        } else if op.action matches Action::Replace { count: ReplaceCount::FirstPerLine, .. } {
            Err(per_line_in_multiline_error())
        } else {
            Ok(multiline::multiline_output(text, op.action, m, context_lines))
        }
    } else {
        match range::range_error(range) {
            Some(e) => Err(e),
            None => if splice::is_spliced(text, op, m, range) {
                Ok(
                    splice::spliced_output(
                        text,
                        splice::splice_spans_of(text, op.action, m),
                        context_lines,
                    ),
                )
            } else {
                Ok(line_output(text, op.action, m, range, context_lines))
            },
        }
    }
}

/// A literal that occurs on a line occurs in the text.
pub proof fn lemma_contains_of_line(s: Seq<char>, pat: Seq<char>, i: int)
    requires
        0 <= i < lines::lines(s).len(),
        matcher::contains(lines::lines(s)[i], pat),
    ensures
        matcher::contains(s, pat),
{
    lines::lemma_lines_from_index(s, 0, i);
    let b = lines::nth_begin(s, 0, i);
    let line = lines::lines(s)[i];
    lines::lemma_first_newline(s, b);
    let j = choose|j: int| matcher::occurs_at(line, pat, j);
    assert(s.subrange(b + j, b + j + pat.len()) =~= line.subrange(j, j + pat.len()));
    assert(matcher::occurs_at(s, pat, b + j));
}

/// A literal that does not occur in a text changes nothing.
proof fn lemma_absent_literal(
    s: Seq<char>,
    op: OpView,
    pat: Seq<char>,
    range: Option<RangeView>,
    context_lines: int,
)
    requires
        !matcher::contains(s, pat),
        !op.multiline(),
        range::range_error(range) is None,
    ensures
        apply_result(s, op, MatcherView::Literal { pattern: pat }, range, context_lines) == Ok::<
            OutputView,
            error::ErrorView,
        >(edits::no_change()),
{
    let m = MatcherView::Literal { pattern: pat };
    let ls = lines::lines(s);
    let es = pass_edits(op.action, m, range, ls);
    matcher::lemma_literal_spans(s, pat, multiline::replacement_of(op.action));
    assert forall|i: int| 0 <= i < ls.len() implies es[i] is Keep by {
        if matcher::contains(ls[i], pat) {
            lemma_contains_of_line(s, pat, i);
        }
        match op.action {
            Action::Replace { replace, .. } => {
                matcher::lemma_literal_spans(ls[i], pat, replace);
            },
            _ => {},
        }
    }
    lemma_all_kept(ls, es, separator(s), context_lines, ls.len() as int);
    assert(splice::splice_spans_of(s, op.action, m).len() == 0);
}

/// Lines that are all kept make no change.
pub proof fn lemma_all_kept(
    ls: Seq<Seq<char>>,
    es: Seq<LineEdit>,
    sep: Seq<char>,
    context_lines: int,
    n: int,
)
    requires
        0 <= n <= es.len(),
        forall|i: int| 0 <= i < n ==> es[i] is Keep,
    ensures
        edits::edit_changes(ls, es, sep, context_lines, n).len() == 0,
    decreases n,
{
    if n > 0 {
        lemma_all_kept(ls, es, sep, context_lines, n - 1);
    }
}

/// Applies an operation to a text.
///
/// Line operations keep the more common line ending and the final newline;
/// whole-buffer operations touch nothing outside the matches.
pub fn apply(
    text: &str,
    op: &Op,
    matcher: &Matcher,
    range: Option<RangeSpec>,
    context_lines: usize,
) -> (r: Result<EngineOutput, RipsedError>)
    ensures
        match r {
            Ok(out) => apply_result(
                text@,
                op@,
                matcher@,
                operation::range_view(range),
                context_lines as int,
            ) == Ok::<OutputView, error::ErrorView>(out@),
            Err(e) => apply_result(
                text@,
                op@,
                matcher@,
                operation::range_view(range),
                context_lines as int,
            ) == Err::<OutputView, error::ErrorView>(e@),
        },
{
    if op.is_multiline() {
        if range.is_some() {
            return Err(
                RipsedError::invalid_request(
                    "ranges are not supported in multiline mode",
                    "multiline patterns match against the whole buffer; remove the range or the multiline flag",
                ),
            );
        }
        let per_line = match op {
            Op::Replace { count: ReplaceCount::FirstPerLine, .. } => true,
            _ => false,
        };
        if per_line {
            return Err(
                RipsedError::invalid_request(
                    "first_per_line count is not supported in multiline mode",
                    "per-line counting has no meaning when matching the whole buffer; use first_in_file or {\"max\": n} instead",
                ),
            );
        }
        return Ok(apply_multiline(text, op, matcher, context_lines));
    }
    let filter = match RangeFilter::new(&range) {
        Ok(f) => f,
        Err(e) => {
            return Err(e);
        },
    };
    // Where the pattern cannot match anywhere in the buffer, no line matches.
    if !matcher.prescreen(text) {
        proof {
            lemma_absent_literal(
                text@,
                op@,
                matcher@->Literal_pattern,
                operation::range_view(range),
                context_lines as int,
            );
        }
        return Ok(unchanged());
    }
    let (crlf, bare_lf) = line_ending_counts(text);
    if splice_eligible(op, &range, crlf, bare_lf, Ghost(text@)) {
        match try_splice(text, op, matcher, context_lines) {
            Some(out) => {
                return Ok(out);
            },
            None => {},
        }
    }
    Ok(apply_lines(text, op, matcher, filter, crlf > bare_lf, context_lines))
}

// ---------------------------------------------------------------------------
// Streams
// ---------------------------------------------------------------------------

/// What [`LineProcessor::process_line`] decided for one input line.
#[derive(Debug, PartialEq, Eq)]
pub struct StreamedLine {
    /// Lines to emit in place of the input line: none for a deletion, one for
    /// a line that is kept or replaced, two for an insertion.
    pub lines: Vec<String>,
    /// Whether the operation changed this line.
    pub changed: bool,
}

/// The error of a whole-buffer operation on a stream.
pub open spec fn multiline_stream_error() -> error::ErrorView {
    error::invalid_request_error(
        "multiline operations cannot be streamed"@,
        "multiline patterns match against the whole buffer; buffer the input instead"@,
    )
}

/// The error that starting a stream ends in.
pub open spec fn stream_error(op: OpView, range: Option<RangeView>) -> Option<error::ErrorView> {
    if op.multiline() {
        Some(multiline_stream_error())
    } else {
        range::range_error(range)
    }
}

/// Line-by-line processor for streams.
///
/// Lines are fed in order, without their terminators, and what comes back is
/// emitted. The range, the replacement budget and the line counter are carried
/// from line to line, so nothing needs to be buffered.
#[derive(Debug)]
pub struct LineProcessor<'a> {
    op: &'a Op,
    matcher: &'a Matcher,
    range_filter: RangeFilter,
    budget: Option<usize>,
    line_num: usize,
}

impl<'a> LineProcessor<'a> {
    /// The operation.
    pub closed spec fn op(self) -> OpView {
        self.op@
    }

    /// What is looked for.
    pub closed spec fn matcher(self) -> MatcherView {
        self.matcher@
    }

    /// The lines that may be touched.
    pub closed spec fn range(self) -> Option<RangeView> {
        self.range_filter.range()
    }

    /// What is carried from line to line.
    pub closed spec fn state(self) -> PassState {
        PassState { active: self.range_filter.active(), budget: budget_view(self.budget) }
    }

    /// How many lines have been processed.
    pub closed spec fn line_num(self) -> int {
        self.line_num as int
    }

    /// A processor at the start of a stream. Whole-buffer operations cannot be
    /// streamed.
    pub fn new(op: &'a Op, matcher: &'a Matcher, range: Option<RangeSpec>) -> (r: Result<
        LineProcessor<'a>,
        RipsedError,
    >)
        ensures
            match r {
                Ok(p) => {
                    &&& stream_error(op@, operation::range_view(range)) is None
                    &&& p.op() == op@
                    &&& p.matcher() == matcher@
                    &&& p.range() == operation::range_view(range)
                    &&& p.state() == pass_start(op@.action)
                    &&& p.line_num() == 0
                },
                Err(e) => stream_error(op@, operation::range_view(range)) == Some(e@),
            },
    {
        if op.is_multiline() {
            return Err(
                RipsedError::invalid_request(
                    "multiline operations cannot be streamed",
                    "multiline patterns match against the whole buffer; buffer the input instead",
                ),
            );
        }
        let range_filter = match RangeFilter::new(&range) {
            Ok(f) => f,
            Err(e) => {
                return Err(e);
            },
        };
        Ok(
            LineProcessor {
                op,
                matcher,
                range_filter,
                budget: replace_budget(op),
                line_num: 0,
            },
        )
    }

    /// Processes the next input line, given without its terminator.
    pub fn process_line(&mut self, line: &str) -> (r: StreamedLine)
        requires
            old(self).line_num() < usize::MAX,
        ensures
            ({
                let edit = step_edit(
                    old(self).op().action,
                    old(self).matcher(),
                    old(self).range(),
                    old(self).state(),
                    old(self).line_num() + 1,
                    line@,
                );
                &&& strings::strings_view(r.lines@) == edits::emitted(edit, line@)
                &&& r.changed == !(edit is Keep)
            }),
            final(self).state() == step_state(
                old(self).op().action,
                old(self).matcher(),
                old(self).range(),
                old(self).state(),
                old(self).line_num() + 1,
                line@,
            ),
            final(self).line_num() == old(self).line_num() + 1,
            final(self).op() == old(self).op(),
            final(self).matcher() == old(self).matcher(),
            final(self).range() == old(self).range(),
    {
        self.line_num = self.line_num + 1;
        let action = if self.range_filter.admits(self.line_num, line) {
            dispatch_op(self.op, line, self.matcher, &mut self.budget)
        } else {
            LineAction::Unchanged
        };
        let changed = match &action {
            LineAction::Unchanged => false,
            _ => true,
        };
        let mut out: Vec<String> = Vec::new();
        let ghost before = out@;
        emit(&mut out, action, line);
        proof {
            assert(strings::strings_view(before) =~= Seq::<Seq<char>>::empty());
            assert(strings::strings_view(out@) =~= edits::emitted(action.edit(), line@));
        }
        StreamedLine { lines: out, changed }
    }
}

/// The changes of one file as the result of an operation; no entry where
/// nothing changed.
pub fn build_op_result(operation_index: usize, path: &str, changes: Vec<Change>) -> (r: OpResult)
    ensures
        r.operation_index == operation_index,
        changes@.len() == 0 ==> r.files@.len() == 0,
        changes@.len() > 0 ==> r.files@.len() == 1 && r.files@[0].path@ == path@
            && r.files@[0].changes@ == changes@,
        r@ == (ResultView {
            operation_index: operation_index as int,
            files: if changes@.len() == 0 {
                Seq::empty()
            } else {
                seq![(path@, diff::changes_view(changes@))]
            },
        }),
{
    let mut files: Vec<FileChanges> = Vec::new();
    if changes.len() > 0 {
        files.push(FileChanges { path: owned(path), changes });
    }
    OpResult { operation_index, files }
}

} // verus!
