//! Laws of editing: what stands in place of a line, by the operation and the
//! range, and what is said of it.
use vstd::prelude::*;

use crate::edits;
use crate::edits::OutputView;
use crate::engine;
use crate::error;
use crate::lines;
use crate::matcher::MatcherView;
use crate::multiline;
use crate::needles;
use crate::operation::{Action, LineRange, OpView, RangeView, ReplaceCount};
use crate::range;
use crate::rex;
use crate::spans;
use crate::splice;
use crate::splice_laws;
use crate::transform;

verus! {

/// What stands in place of line `i`: no line, one or two.
pub open spec fn fate(
    action: Action,
    m: MatcherView,
    range: Option<RangeView>,
    ls: Seq<Seq<char>>,
    i: int,
) -> Seq<Seq<char>> {
    edits::emitted(engine::pass_edits(action, m, range, ls)[i], ls[i])
}

/// What stands in place of the first `n` lines, in order.
pub open spec fn fates(
    action: Action,
    m: MatcherView,
    range: Option<RangeView>,
    ls: Seq<Seq<char>>,
    n: int,
) -> Seq<Seq<char>>
    decreases n,
{
    if n <= 0 {
        Seq::empty()
    } else {
        fates(action, m, range, ls, n - 1) + fate(action, m, range, ls, n - 1)
    }
}

/// Whether a range is of line numbers, or there is none, and it lets line
/// number `n` be touched.
pub open spec fn lets_touch(range: Option<RangeView>, n: int) -> bool {
    match range {
        None => true,
        Some(RangeView::Lines(r)) => r.start <= n && (r.end matches Some(e) ==> n <= e),
        Some(RangeView::Patterns { .. }) => false,
    }
}

/// Whether a range is of line numbers, or there is none.
pub open spec fn by_number(range: Option<RangeView>) -> bool {
    !(range matches Some(RangeView::Patterns { .. }))
}

/// Whether an operation says what it is for a matcher to find: where it is no
/// regular expression the matcher looks for its literal.
pub open spec fn fits(op: OpView, m: MatcherView) -> bool {
    !op.regex ==> needles::looks_for(m, needles::needle_of(op))
}

// ---------------------------------------------------------------------------
// The text
// ---------------------------------------------------------------------------

proof fn lemma_fates(
    action: Action,
    m: MatcherView,
    range: Option<RangeView>,
    ls: Seq<Seq<char>>,
    n: int,
)
    requires
        0 <= n <= ls.len(),
    ensures
        edits::edit_lines(ls, engine::pass_edits(action, m, range, ls), n) == fates(
            action,
            m,
            range,
            ls,
            n,
        ),
    decreases n,
{
    if n > 0 {
        lemma_fates(action, m, range, ls, n - 1);
    }
}

proof fn lemma_is_line_pass(
    text: Seq<char>,
    op: OpView,
    m: MatcherView,
    range: Option<RangeView>,
    context_lines: int,
)
    requires
        !op.multiline(),
        range::range_error(range) is None,
        fits(op, m),
    ensures
        engine::apply_result(text, op, m, range, context_lines) == Ok::<
            OutputView,
            error::ErrorView,
        >(engine::line_output(text, op.action, m, range, context_lines)),
{
    if splice::is_spliced(text, op, m, range) {
        splice_laws::law_splice_is_line_pass(text, op, m, context_lines);
    }
}

proof fn lemma_changes_tell(
    action: Action,
    m: MatcherView,
    range: Option<RangeView>,
    ls: Seq<Seq<char>>,
    sep: Seq<char>,
    context_lines: int,
    n: int,
)
    requires
        0 <= n <= ls.len(),
    ensures
        ({
            let changes = edits::edit_changes(
                ls,
                engine::pass_edits(action, m, range, ls),
                sep,
                context_lines,
                n,
            );
            &&& forall|k: int| #![trigger changes[k]]
                0 <= k < changes.len() ==> {
                    let i = changes[k].line - 1;
                    let now = fate(action, m, range, ls, i);
                    &&& 0 <= i < n
                    &&& changes[k].before == ls[i]
                    &&& now.len() == 0 ==> changes[k].after is None
                    &&& now.len() > 0 ==> changes[k].after == Some(edits::join(now, sep))
                }
            &&& forall|i: int| 0 <= i < n && #[trigger] fate(action, m, range, ls, i) != seq![ls[i]]
                ==> exists|k: int| 0 <= k < changes.len() && #[trigger] changes[k].line == i + 1
        }),
    decreases n,
{
    let es = engine::pass_edits(action, m, range, ls);
    let changes = edits::edit_changes(ls, es, sep, context_lines, n);
    if n > 0 {
        lemma_changes_tell(action, m, range, ls, sep, context_lines, n - 1);
        let before = edits::edit_changes(ls, es, sep, context_lines, n - 1);
        let now = fate(action, m, range, ls, n - 1);
        assert(now.len() > 0 ==> edits::edit_after(es[n - 1], ls[n - 1], sep) == Some(
            edits::join(now, sep),
        )) by {
            reveal_with_fuel(edits::join, 3);
            if now.len() == 2 {
                assert(now.drop_last() =~= seq![now[0]]);
            }
        }
        assert forall|i: int| 0 <= i < n && #[trigger] fate(action, m, range, ls, i) != seq![
            ls[i],
        ] implies exists|k: int| 0 <= k < changes.len() && #[trigger] changes[k].line == i + 1 by {
            if i < n - 1 {
                let k = choose|k: int|
                    0 <= k < before.len() && #[trigger] before[k].line == i + 1;
                assert(changes[k] == before[k]);
            } else {
                assert(changes[before.len() as int].line == n);
            }
        }
        assert forall|k: int| 0 <= k < changes.len() implies {
            let i = (#[trigger] changes[k]).line - 1;
            let now = fate(action, m, range, ls, i);
            &&& 0 <= i < n
            &&& changes[k].before == ls[i]
            &&& now.len() == 0 ==> changes[k].after is None
            &&& now.len() > 0 ==> changes[k].after == Some(edits::join(now, sep))
        } by {
            if k < before.len() {
                assert(changes[k] == before[k]);
            }
        }
    }
}

proof fn lemma_all_stay(
    action: Action,
    m: MatcherView,
    range: Option<RangeView>,
    ls: Seq<Seq<char>>,
    n: int,
)
    requires
        0 <= n <= ls.len(),
        forall|i: int| 0 <= i < n ==> #[trigger] fate(action, m, range, ls, i) == seq![ls[i]],
    ensures
        fates(action, m, range, ls, n) == ls.take(n),
    decreases n,
{
    if n > 0 {
        lemma_all_stay(action, m, range, ls, n - 1);
        assert(fate(action, m, range, ls, n - 1) == seq![ls[n - 1]]);
        assert(ls.take(n - 1) + seq![ls[n - 1]] =~= ls.take(n));
    } else {
        assert(fates(action, m, range, ls, n) =~= ls.take(n));
    }
}

/// An operation on lines leaves, joined again, what stands in place of each
/// line of the text; where it gives no text, every line stands where it stood.
/// Each change names a line, holds it, and says what stands in its place, and a
/// line that does not stay has a change.
pub proof fn law_text_is_what_becomes_of_lines(
    text: Seq<char>,
    op: OpView,
    m: MatcherView,
    range: Option<RangeView>,
    context_lines: int,
)
    requires
        !op.multiline(),
        range::range_error(range) is None,
        fits(op, m),
    ensures
        engine::apply_result(text, op, m, range, context_lines) matches Ok(out) && {
            let ls = lines::lines(text);
            let n = ls.len() as int;
            let sep = engine::separator(text);
            &&& out.text matches Some(t) ==> t == edits::rejoin(
                fates(op.action, m, range, ls, n),
                sep,
                text.len() > 0 && text.last() == '\n',
            ) && out.undo == Some(text)
            &&& out.text is None ==> fates(op.action, m, range, ls, n) == ls && out.changes.len()
                == 0 && out.undo is None
            &&& forall|k: int| #![trigger out.changes[k]]
                0 <= k < out.changes.len() ==> {
                    let i = out.changes[k].line - 1;
                    let now = fate(op.action, m, range, ls, i);
                    &&& 0 <= i < n
                    &&& out.changes[k].before == ls[i]
                    &&& now.len() == 0 ==> out.changes[k].after is None
                    &&& now.len() > 0 ==> out.changes[k].after == Some(edits::join(now, sep))
                }
            &&& forall|i: int|
                0 <= i < n && #[trigger] fate(op.action, m, range, ls, i) != seq![ls[i]]
                    ==> exists|k: int|
                    0 <= k < out.changes.len() && #[trigger] out.changes[k].line == i + 1
        },
{
    let ls = lines::lines(text);
    let n = ls.len() as int;
    let sep = engine::separator(text);
    lemma_is_line_pass(text, op, m, range, context_lines);
    lemma_fates(op.action, m, range, ls, n);
    lemma_changes_tell(op.action, m, range, ls, sep, context_lines, n);
    let out = engine::line_output(text, op.action, m, range, context_lines);
    if out.text is None {
        assert forall|i: int| 0 <= i < n implies #[trigger] fate(op.action, m, range, ls, i)
            == seq![ls[i]] by {
            if fate(op.action, m, range, ls, i) != seq![ls[i]] {
                let changes = edits::edit_changes(
                    ls,
                    engine::pass_edits(op.action, m, range, ls),
                    sep,
                    context_lines,
                    n,
                );
                let k = choose|k: int|
                    0 <= k < changes.len() && #[trigger] changes[k].line == i + 1;
                assert(changes.len() > 0);
            }
        }
        lemma_all_stay(op.action, m, range, ls, n);
        assert(ls.take(n) =~= ls);
    }
}

/// Lines that end in `\n` alone are joined with `\n`; lines that all end in
/// `\r\n` are joined with `\r\n`.
pub proof fn law_line_endings_decide_the_separator(text: Seq<char>)
    ensures
        !text.contains('\r') ==> engine::separator(text) == "\n"@,
        text.contains('\n') && (forall|k: int|
            0 <= k < text.len() && #[trigger] text[k] == '\n' ==> k > 0 && text[k - 1] == '\r')
            ==> engine::separator(text) == "\r\n"@,
{
    if !text.contains('\r') {
        assert forall|k: int| 1 <= k < text.len() && text[k] == '\n' implies #[trigger] text[k - 1]
            != '\r' by {
            assert(text.contains(text[k - 1]));
        }
        crate::laws::lemma_no_crlf(text, text.len() as int);
    }
    if text.contains('\n') && (forall|k: int|
        0 <= k < text.len() && #[trigger] text[k] == '\n' ==> k > 0 && text[k - 1] == '\r') {
        let k = choose|k: int| 0 <= k < text.len() && text[k] == '\n';
        crate::laws::lemma_crlf_counted(text, k, text.len() as int);
        lemma_no_bare(text, text.len() as int);
    }
}

proof fn lemma_no_bare(text: Seq<char>, n: int)
    requires
        0 <= n <= text.len(),
        forall|k: int|
            0 <= k < text.len() && #[trigger] text[k] == '\n' ==> k > 0 && text[k - 1] == '\r',
    ensures
        engine::bare_lf_count(text, n) == 0,
    decreases n,
{
    if n > 0 {
        lemma_no_bare(text, n - 1);
        assert(text[n - 1] == '\n' ==> n - 1 > 0 && text[n - 2] == '\r');
    }
}

// ---------------------------------------------------------------------------
// Line numbers
// ---------------------------------------------------------------------------

/// A line outside the numbers of a range stays as it is.
pub proof fn law_lines_outside_stay(
    action: Action,
    m: MatcherView,
    r: LineRange,
    ls: Seq<Seq<char>>,
    i: int,
)
    requires
        0 <= i < ls.len(),
        i + 1 < r.start || (r.end matches Some(e) && i + 1 > e),
    ensures
        fate(action, m, Some(RangeView::Lines(r)), ls, i) == seq![ls[i]],
{
}

/// Every change of an operation with a range of line numbers is of a line in
/// that range.
pub proof fn law_changes_are_in_range(
    text: Seq<char>,
    op: OpView,
    m: MatcherView,
    r: LineRange,
    context_lines: int,
    k: int,
)
    requires
        fits(op, m),
        !op.multiline(),
    ensures
        engine::apply_result(text, op, m, Some(RangeView::Lines(r)), context_lines) matches Ok(out)
            && (0 <= k < out.changes.len() ==> r.start <= out.changes[k].line && (r.end matches Some(
            e,
        ) ==> out.changes[k].line <= e)),
{
    let range = Some(RangeView::Lines(r));
    let ls = lines::lines(text);
    lemma_is_line_pass(text, op, m, range, context_lines);
    lemma_changes_admitted(
        op.action,
        m,
        r,
        ls,
        engine::separator(text),
        context_lines,
        ls.len() as int,
    );
}

proof fn lemma_changes_admitted(
    action: Action,
    m: MatcherView,
    r: LineRange,
    ls: Seq<Seq<char>>,
    sep: Seq<char>,
    context_lines: int,
    n: int,
)
    requires
        0 <= n <= ls.len(),
    ensures
        ({
            let es = engine::pass_edits(action, m, Some(RangeView::Lines(r)), ls);
            let changes = edits::edit_changes(ls, es, sep, context_lines, n);
            forall|k: int| #![trigger changes[k]]
                0 <= k < changes.len() ==> r.start <= changes[k].line && (r.end matches Some(e)
                    ==> changes[k].line <= e)
        }),
    decreases n,
{
    if n > 0 {
        lemma_changes_admitted(action, m, r, ls, sep, context_lines, n - 1);
    }
}

// ---------------------------------------------------------------------------
// Patterns
// ---------------------------------------------------------------------------

/// A range of two patterns.
pub open spec fn between(start: Seq<char>, end: Seq<char>) -> Option<RangeView> {
    Some(RangeView::Patterns { start, end })
}

/// Whether no line from `a` up to but without `b` matches a pattern.
pub open spec fn none_match(source: Seq<char>, ls: Seq<Seq<char>>, a: int, b: int) -> bool {
    forall|k: int| #![trigger ls[k]]
        a <= k < b && 0 <= k < ls.len() ==> !rex::regex_matches(source, ls[k])
}

/// A region is open behind line `i` at most where its start was seen.
proof fn lemma_closed(
    action: Action,
    m: MatcherView,
    start: Seq<char>,
    end: Seq<char>,
    ls: Seq<Seq<char>>,
    a: int,
    i: int,
)
    requires
        0 <= a <= i <= ls.len(),
        none_match(start, ls, a, i),
        a == 0 || !engine::state_at(action, m, between(start, end), ls, a).active,
    ensures
        !engine::state_at(action, m, between(start, end), ls, i).active,
    decreases i - a,
{
    if i > a {
        lemma_closed(action, m, start, end, ls, a, i - 1);
        assert(!rex::regex_matches(start, ls[i - 1]));
    }
}

proof fn lemma_open(
    action: Action,
    m: MatcherView,
    start: Seq<char>,
    end: Seq<char>,
    ls: Seq<Seq<char>>,
    a: int,
    i: int,
)
    requires
        0 <= a <= i <= ls.len(),
        none_match(end, ls, a, i),
        engine::state_at(action, m, between(start, end), ls, a).active,
    ensures
        engine::state_at(action, m, between(start, end), ls, i).active,
    decreases i - a,
{
    if i > a {
        lemma_open(action, m, start, end, ls, a, i - 1);
        assert(!rex::regex_matches(end, ls[i - 1]));
    }
}

/// Between two patterns, an operation other than a replace does to a line what
/// it does without a range, where the line is inside a region, and leaves it
/// otherwise. A line that matches the start is inside; so is one behind a start
/// with no end from there on before it, and one behind the first start with no
/// end between them. A line is outside where no start came, and behind an end
/// with no start from there on.
pub proof fn law_regions_hold_what_lies_between(
    action: Action,
    m: MatcherView,
    start: Seq<char>,
    end: Seq<char>,
    ls: Seq<Seq<char>>,
    i: int,
    j: int,
)
    requires
        0 <= j <= i < ls.len(),
        !(action is Replace),
    ensures
        ({
            let here = fate(action, m, between(start, end), ls, i);
            let free = fate(action, m, None, ls, i);
            &&& here == free || here == seq![ls[i]]
            &&& rex::regex_matches(start, ls[i]) ==> here == free
            &&& rex::regex_matches(start, ls[j]) && none_match(end, ls, j, i) ==> here == free
            &&& rex::regex_matches(start, ls[j]) && none_match(start, ls, 0, j) && none_match(
                end,
                ls,
                j + 1,
                i,
            ) ==> here == free
            &&& none_match(start, ls, 0, i + 1) ==> here == seq![ls[i]]
            &&& j < i && rex::regex_matches(end, ls[j]) && none_match(start, ls, j, i + 1) ==> here
                == seq![ls[i]]
        }),
{
    let range = between(start, end);
    if rex::regex_matches(start, ls[j]) && none_match(end, ls, j, i) && j < i {
        assert(!rex::regex_matches(end, ls[j]));
        assert(engine::state_at(action, m, range, ls, j + 1).active);
        lemma_open(action, m, start, end, ls, j + 1, i);
    }
    if rex::regex_matches(start, ls[j]) && none_match(start, ls, 0, j) && none_match(
        end,
        ls,
        j + 1,
        i,
    ) && j < i {
        lemma_closed(action, m, start, end, ls, 0, j);
        assert(engine::state_at(action, m, range, ls, j + 1).active);
        lemma_open(action, m, start, end, ls, j + 1, i);
    }
    if none_match(start, ls, 0, i + 1) {
        lemma_closed(action, m, start, end, ls, 0, i);
        assert(!rex::regex_matches(start, ls[i]));
    }
    if j < i && rex::regex_matches(end, ls[j]) && none_match(start, ls, j, i + 1) {
        assert(!rex::regex_matches(start, ls[j]));
        assert(!engine::state_at(action, m, range, ls, j + 1).active);
        lemma_closed(action, m, start, end, ls, j + 1, i);
        assert(!rex::regex_matches(start, ls[i]));
    }
}

/// The same of a replace of all matches, or of the first on each line: inside a
/// region it does what it does without a range, outside it does nothing.
pub proof fn law_regions_hold_replaces(
    action: Action,
    m: MatcherView,
    start: Seq<char>,
    end: Seq<char>,
    ls: Seq<Seq<char>>,
    i: int,
    j: int,
)
    requires
        0 <= j <= i < ls.len(),
        action matches Action::Replace { count, .. } && (count == ReplaceCount::All || count
            == ReplaceCount::FirstPerLine),
    ensures
        ({
            let here = fate(action, m, between(start, end), ls, i);
            let free = fate(action, m, None, ls, i);
            &&& here == free || here == seq![ls[i]]
            &&& rex::regex_matches(start, ls[i]) ==> here == free
            &&& rex::regex_matches(start, ls[j]) && none_match(end, ls, j, i) ==> here == free
            &&& rex::regex_matches(start, ls[j]) && none_match(start, ls, 0, j) && none_match(
                end,
                ls,
                j + 1,
                i,
            ) ==> here == free
            &&& none_match(start, ls, 0, i + 1) ==> here == seq![ls[i]]
            &&& j < i && rex::regex_matches(end, ls[j]) && none_match(start, ls, j, i + 1) ==> here
                == seq![ls[i]]
        }),
{
    let range = between(start, end);
    lemma_no_budget(action, m, range, ls, i);
    lemma_no_budget(action, m, None, ls, i);
    if rex::regex_matches(start, ls[j]) && none_match(end, ls, j, i) && j < i {
        assert(!rex::regex_matches(end, ls[j]));
        assert(engine::state_at(action, m, range, ls, j + 1).active);
        lemma_open(action, m, start, end, ls, j + 1, i);
    }
    if rex::regex_matches(start, ls[j]) && none_match(start, ls, 0, j) && none_match(
        end,
        ls,
        j + 1,
        i,
    ) && j < i {
        lemma_closed(action, m, start, end, ls, 0, j);
        assert(engine::state_at(action, m, range, ls, j + 1).active);
        lemma_open(action, m, start, end, ls, j + 1, i);
    }
    if none_match(start, ls, 0, i + 1) {
        lemma_closed(action, m, start, end, ls, 0, i);
        assert(!rex::regex_matches(start, ls[i]));
    }
    if j < i && rex::regex_matches(end, ls[j]) && none_match(start, ls, j, i + 1) {
        assert(!rex::regex_matches(start, ls[j]));
        assert(!engine::state_at(action, m, range, ls, j + 1).active);
        lemma_closed(action, m, start, end, ls, j + 1, i);
        assert(!rex::regex_matches(start, ls[i]));
    }
}

proof fn lemma_no_budget(
    action: Action,
    m: MatcherView,
    range: Option<RangeView>,
    ls: Seq<Seq<char>>,
    i: int,
)
    requires
        0 <= i <= ls.len(),
        engine::replace_budget_of(action) is None,
    ensures
        engine::state_at(action, m, range, ls, i).budget is None,
    decreases i,
{
    if i > 0 {
        lemma_no_budget(action, m, range, ls, i - 1);
    }
}

// ---------------------------------------------------------------------------
// Operations
// ---------------------------------------------------------------------------

/// A line that an operation other than a replace finds nothing on stays.
pub proof fn law_other_lines_stay(
    action: Action,
    m: MatcherView,
    range: Option<RangeView>,
    ls: Seq<Seq<char>>,
    i: int,
)
    requires
        0 <= i < ls.len(),
        !m.is_match(ls[i]),
        !(action is Replace),
    ensures
        fate(action, m, range, ls, i) == seq![ls[i]],
{
}

/// A delete leaves nothing of a line that it finds something on.
pub proof fn law_delete_leaves_nothing(
    multiline: bool,
    m: MatcherView,
    range: Option<RangeView>,
    ls: Seq<Seq<char>>,
    i: int,
)
    requires
        0 <= i < ls.len(),
        lets_touch(range, i + 1),
        m.is_match(ls[i]),
    ensures
        fate(Action::Delete { multiline }, m, range, ls, i).len() == 0,
{
}

/// An insertion keeps the line that it finds something on, with the content
/// behind it or before it; a replacement of lines puts the content there.
pub proof fn law_content_goes_to_its_place(
    content: Seq<char>,
    m: MatcherView,
    range: Option<RangeView>,
    ls: Seq<Seq<char>>,
    i: int,
)
    requires
        0 <= i < ls.len(),
        lets_touch(range, i + 1),
        m.is_match(ls[i]),
    ensures
        fate(Action::InsertAfter { content }, m, range, ls, i) == seq![ls[i], content],
        fate(Action::InsertBefore { content }, m, range, ls, i) == seq![content, ls[i]],
        fate(Action::ReplaceLine { content }, m, range, ls, i) == seq![content],
{
}

/// A surround puts the prefix before a line that it finds something on, and the
/// suffix behind it.
pub proof fn law_surround_wraps_the_line(
    prefix: Seq<char>,
    suffix: Seq<char>,
    m: MatcherView,
    range: Option<RangeView>,
    ls: Seq<Seq<char>>,
    i: int,
)
    requires
        0 <= i < ls.len(),
        lets_touch(range, i + 1),
        m.is_match(ls[i]),
    ensures
        fate(Action::Surround { prefix, suffix }, m, range, ls, i) == seq![
            prefix + ls[i] + suffix,
        ],
{
}

/// A transformation puts a line with its matches in that case in place of the
/// line.
pub proof fn law_transform_puts_the_line(
    mode: crate::operation::TransformMode,
    m: MatcherView,
    range: Option<RangeView>,
    ls: Seq<Seq<char>>,
    i: int,
)
    requires
        0 <= i < ls.len(),
        lets_touch(range, i + 1),
        m.is_match(ls[i]),
    ensures
        fate(Action::Transform { mode }, m, range, ls, i) == seq![
            transform::transform_line(ls[i], m, mode),
        ],
{
}

/// Whether a text is so many spaces or tabs.
pub open spec fn is_indent(s: Seq<char>, amount: int, use_tabs: bool) -> bool {
    &&& s.len() == amount
    &&& forall|k: int| #![trigger s[k]]
        0 <= k < s.len() ==> s[k] == if use_tabs {
            '\t'
        } else {
            ' '
        }
}

/// An indentation puts the given number of spaces, or tabs, before a line that
/// it finds something on.
pub proof fn law_indent_adds_to_the_line(
    amount: usize,
    use_tabs: bool,
    m: MatcherView,
    range: Option<RangeView>,
    ls: Seq<Seq<char>>,
    i: int,
)
    requires
        0 <= i < ls.len(),
        lets_touch(range, i + 1),
        m.is_match(ls[i]),
    ensures
        ({
            let now = fate(Action::Indent { amount, use_tabs }, m, range, ls, i);
            &&& now.len() == 1
            &&& now[0].len() == ls[i].len() + amount
            &&& is_indent(now[0].take(amount as int), amount as int, use_tabs)
            &&& now[0].skip(amount as int) == ls[i]
        }),
{
    let want = transform::indent_text(amount as nat, use_tabs) + ls[i];
    assert(fate(Action::Indent { amount, use_tabs }, m, range, ls, i) =~= seq![want]);
    assert(want.skip(amount as int) =~= ls[i]);
}

/// A dedent takes away the spaces, or tabs, that a line starts with, up to the
/// given number, where it finds something on the line.
pub proof fn law_dedent_takes_from_the_line(
    amount: usize,
    use_tabs: bool,
    m: MatcherView,
    range: Option<RangeView>,
    ls: Seq<Seq<char>>,
    i: int,
)
    requires
        0 <= i < ls.len(),
        lets_touch(range, i + 1),
        m.is_match(ls[i]),
    ensures
        ({
            let now = fate(Action::Dedent { amount, use_tabs }, m, range, ls, i);
            let gone = ls[i].len() - now[0].len();
            let c = if use_tabs {
                '\t'
            } else {
                ' '
            };
            &&& now.len() == 1
            &&& 0 <= gone <= amount
            &&& is_indent(ls[i].take(gone), gone, use_tabs)
            &&& now[0] == ls[i].skip(gone)
            &&& gone < amount && gone < ls[i].len() ==> ls[i][gone] != c
        }),
{
    let line = ls[i];
    let c = transform::indent_char(use_tabs);
    let run = transform::leading_run(line, c);
    lemma_run(line, c);
    let gone = if run < amount {
        run as int
    } else {
        amount as int
    };
    assert(transform::dedented(line, amount as nat, use_tabs) == line.skip(gone));
    assert(fate(Action::Dedent { amount, use_tabs }, m, range, ls, i) =~= seq![line.skip(gone)]);
}

proof fn lemma_run(s: Seq<char>, c: char)
    ensures
        transform::leading_run(s, c) <= s.len(),
        forall|k: int| 0 <= k < transform::leading_run(s, c) ==> s[k] == c,
        transform::leading_run(s, c) < s.len() ==> s[transform::leading_run(s, c) as int] != c,
    decreases s.len(),
{
    if s.len() > 0 && s[0] == c {
        let rest = s.skip(1);
        lemma_run(rest, c);
        assert forall|k: int| 0 <= k < transform::leading_run(s, c) implies s[k] == c by {
            if k > 0 {
                assert(rest[k - 1] == s[k]);
            }
        }
        if transform::leading_run(s, c) < s.len() {
            assert(rest[transform::leading_run(rest, c) as int] == s[transform::leading_run(
                s,
                c,
            ) as int]);
        }
    }
}

// ---------------------------------------------------------------------------
// Replacing
// ---------------------------------------------------------------------------

/// How many matches the lines before line `i` hold that may be touched.
pub open spec fn matches_before(
    replace: Seq<char>,
    m: MatcherView,
    range: Option<RangeView>,
    ls: Seq<Seq<char>>,
    i: int,
) -> int
    decreases i,
{
    if i <= 0 {
        0
    } else {
        matches_before(replace, m, range, ls, i - 1) + if lets_touch(range, i) {
            m.spans(ls[i - 1], replace).len() as int
        } else {
            0
        }
    }
}

/// The lesser of two numbers.
pub open spec fn lesser(a: int, b: int) -> int {
    if a < b {
        a
    } else {
        b
    }
}

/// A replace of all matches puts the replacement in place of every match on a
/// line; one of the first per line in place of the first only.
pub proof fn law_replace_by_line(
    replace: Seq<char>,
    m: MatcherView,
    range: Option<RangeView>,
    ls: Seq<Seq<char>>,
    i: int,
)
    requires
        0 <= i < ls.len(),
        lets_touch(range, i + 1),
    ensures
        ({
            let all = Action::Replace { replace, multiline: false, count: ReplaceCount::All };
            let first = Action::Replace {
                replace,
                multiline: false,
                count: ReplaceCount::FirstPerLine,
            };
            let sp = m.spans(ls[i], replace);
            &&& fate(all, m, range, ls, i) == seq![spans::splice(ls[i], sp)]
            &&& fate(first, m, range, ls, i) == seq![
                spans::splice(ls[i], sp.take(lesser(1, sp.len() as int))),
            ]
        }),
{
    let all = Action::Replace { replace, multiline: false, count: ReplaceCount::All };
    let first = Action::Replace { replace, multiline: false, count: ReplaceCount::FirstPerLine };
    let sp = m.spans(ls[i], replace);
    lemma_no_budget(all, m, range, ls, i);
    lemma_no_budget(first, m, range, ls, i);
    if sp.len() == 0 {
        assert(sp.take(0) =~= sp);
        assert(spans::splice(ls[i], sp) =~= ls[i]);
    } else {
        assert(spans::limited(sp, 1) =~= sp.take(1));
    }
}

/// A replace of at most `n` matches replaces the first `n` of the text, from
/// the top: on each line as many of its matches, from the left, as the matches
/// before it leave of the number. One of the first in the file replaces one.
pub proof fn law_replace_counts_from_the_top(
    replace: Seq<char>,
    n: usize,
    m: MatcherView,
    range: Option<RangeView>,
    ls: Seq<Seq<char>>,
    i: int,
)
    requires
        0 <= i < ls.len(),
        by_number(range),
    ensures
        ({
            let max = Action::Replace { replace, multiline: false, count: ReplaceCount::Max(n) };
            let once = Action::Replace {
                replace,
                multiline: false,
                count: ReplaceCount::FirstInFile,
            };
            let sp = m.spans(ls[i], replace);
            let before = matches_before(replace, m, range, ls, i);
            let behind = matches_before(replace, m, range, ls, i + 1);
            &&& fate(max, m, range, ls, i) == seq![
                spans::splice(ls[i], sp.take(lesser(n as int, behind) - lesser(n as int, before))),
            ]
            &&& fate(once, m, range, ls, i) == seq![
                spans::splice(ls[i], sp.take(lesser(1, behind) - lesser(1, before))),
            ]
        }),
{
    let max = Action::Replace { replace, multiline: false, count: ReplaceCount::Max(n) };
    let once = Action::Replace { replace, multiline: false, count: ReplaceCount::FirstInFile };
    lemma_counted(max, replace, n as int, m, range, ls, i);
    lemma_counted(once, replace, 1, m, range, ls, i);
    lemma_taken(max, replace, n as int, m, range, ls, i);
    lemma_taken(once, replace, 1, m, range, ls, i);
}

proof fn lemma_counted(
    action: Action,
    replace: Seq<char>,
    n: int,
    m: MatcherView,
    range: Option<RangeView>,
    ls: Seq<Seq<char>>,
    i: int,
)
    requires
        0 <= i <= ls.len(),
        0 <= n,
        by_number(range),
        engine::replace_budget_of(action) == Some(n),
        action matches Action::Replace { replace: r, count, .. } && r == replace && count
            != ReplaceCount::FirstPerLine,
    ensures
        matches_before(replace, m, range, ls, i) >= 0,
        engine::state_at(action, m, range, ls, i).budget == Some(
            n - lesser(n, matches_before(replace, m, range, ls, i)),
        ),
    decreases i,
{
    if i > 0 {
        lemma_counted(action, replace, n, m, range, ls, i - 1);
    }
}

proof fn lemma_taken(
    action: Action,
    replace: Seq<char>,
    n: int,
    m: MatcherView,
    range: Option<RangeView>,
    ls: Seq<Seq<char>>,
    i: int,
)
    requires
        0 <= i < ls.len(),
        0 <= n,
        by_number(range),
        engine::replace_budget_of(action) == Some(n),
        action matches Action::Replace { replace: r, count, .. } && r == replace && count
            != ReplaceCount::FirstPerLine,
        engine::state_at(action, m, range, ls, i).budget == Some(
            n - lesser(n, matches_before(replace, m, range, ls, i)),
        ),
        matches_before(replace, m, range, ls, i) >= 0,
    ensures
        fate(action, m, range, ls, i) == seq![
            spans::splice(
                ls[i],
                m.spans(ls[i], replace).take(
                    lesser(n, matches_before(replace, m, range, ls, i + 1)) - lesser(
                        n,
                        matches_before(replace, m, range, ls, i),
                    ),
                ),
            ),
        ],
{
    let sp = m.spans(ls[i], replace);
    let before = matches_before(replace, m, range, ls, i);
    let behind = matches_before(replace, m, range, ls, i + 1);
    let used = lesser(n, behind) - lesser(n, before);
    let left = n - lesser(n, before);
    assert(sp.take(0) =~= Seq::<spans::Span>::empty());
    assert(spans::splice(ls[i], sp.take(0)) =~= ls[i]);
    assert(sp.take(sp.len() as int) =~= sp);
    if lets_touch(range, i + 1) {
        assert(behind == before + sp.len());
        if left == 0 {
            assert(used == 0);
        } else if left >= sp.len() {
            assert(used == sp.len());
            assert(spans::limited(sp, left) == sp);
        } else {
            assert(used == left);
            assert(spans::limited(sp, left) == sp.take(left));
        }
    } else {
        assert(used == 0);
    }
}

// ---------------------------------------------------------------------------
// Whole buffers
// ---------------------------------------------------------------------------

/// A whole-buffer operation replaces the matches of the whole text, as many
/// from the start as the limit lets it, and touches nothing else; a delete puts
/// nothing in their place. It takes no range and no limit per line.
pub proof fn law_whole_buffer_is_spliced(
    text: Seq<char>,
    op: OpView,
    m: MatcherView,
    range: Option<RangeView>,
    context_lines: int,
)
    requires
        op.multiline(),
    ensures
        ({
            let r = engine::apply_result(text, op, m, range, context_lines);
            let per_line = op.action matches Action::Replace {
                count: ReplaceCount::FirstPerLine,
                ..
            };
            let found = m.spans(
                text,
                match op.action {
                    Action::Replace { replace, .. } => replace,
                    _ => ""@,
                },
            );
            let used = found.take(
                match op.action {
                    Action::Replace { count: ReplaceCount::FirstInFile, .. } => lesser(
                        1,
                        found.len() as int,
                    ),
                    Action::Replace { count: ReplaceCount::Max(n), .. } => lesser(
                        n as int,
                        found.len() as int,
                    ),
                    _ => found.len() as int,
                },
            );
            &&& r is Err <==> range is Some || per_line
            &&& r matches Ok(out) ==> {
                &&& out.text == if used.len() == 0 {
                    None
                } else {
                    Some(spans::splice(text, used))
                }
                &&& out.changes.len() == used.len()
                &&& out.undo == if used.len() == 0 {
                    None
                } else {
                    Some(text)
                }
                &&& forall|k: int| #![trigger out.changes[k]]
                    0 <= k < used.len() ==> {
                        &&& out.changes[k].before == text.subrange(used[k].start, used[k].end)
                        &&& out.changes[k].after == if op.action is Replace {
                            Some(used[k].replacement)
                        } else {
                            None
                        }
                        &&& out.changes[k].line == 1 + lines::newline_count(
                            text.take(used[k].start),
                        )
                    }
            }
        }),
{
    let found = m.spans(text, multiline::replacement_of(op.action));
    assert(found.take(found.len() as int) =~= found);
    assert(found.take(0) =~= Seq::<spans::Span>::empty());
}

// ---------------------------------------------------------------------------
// Contexts
// ---------------------------------------------------------------------------

/// Up to `n` lines on either side of a line are its context: those right before
/// it and those right behind it, as many as there are.
pub proof fn law_context_is_near(ls: Seq<Seq<char>>, idx: int, n: int, k: int)
    requires
        0 <= idx < ls.len(),
        0 <= n,
    ensures
        ({
            let c = edits::context_around(ls, idx, n);
            &&& c.before.len() == lesser(n, idx)
            &&& c.after.len() == lesser(n, ls.len() - idx - 1)
            &&& 0 <= k < c.before.len() ==> c.before[c.before.len() - 1 - k] == ls[idx - 1 - k]
            &&& 0 <= k < c.after.len() ==> c.after[k] == ls[idx + 1 + k]
        }),
{
}

/// The changes of an operation on lines have their context, where one is asked
/// for, up to the limit on how many have one.
pub proof fn law_changes_have_context(
    text: Seq<char>,
    op: OpView,
    m: MatcherView,
    range: Option<RangeView>,
    context_lines: int,
    k: int,
)
    requires
        !op.multiline(),
        range::range_error(range) is None,
        fits(op, m),
        0 <= context_lines,
    ensures
        engine::apply_result(text, op, m, range, context_lines) matches Ok(out) && (0 <= k
            < out.changes.len() ==> out.changes[k].context == if context_lines == 0 || k >= 1000 {
            None
        } else {
            Some(
                edits::context_around(
                    lines::lines(text),
                    out.changes[k].line - 1,
                    context_lines,
                ),
            )
        }),
{
    let ls = lines::lines(text);
    lemma_is_line_pass(text, op, m, range, context_lines);
    lemma_contexts(
        ls,
        engine::pass_edits(op.action, m, range, ls),
        engine::separator(text),
        context_lines,
        ls.len() as int,
        k,
    );
}

/// The changes of a whole-buffer operation have their context too: the lines
/// right before the line that a match starts in, and those right behind the
/// line that it ends in.
pub proof fn law_whole_buffer_has_context(
    text: Seq<char>,
    op: OpView,
    m: MatcherView,
    context_lines: int,
    k: int,
)
    requires
        op.multiline(),
        0 <= context_lines,
    ensures
        engine::apply_result(text, op, m, None, context_lines) matches Ok(out) ==> (0 <= k
            < out.changes.len() ==> {
            let ls = lines::lines(text);
            let n = context_lines;
            let change = out.changes[k];
            let first = change.line - 1;
            let next = change.line + lines::newline_count(change.before);
            &&& n == 0 ==> change.context is None
            &&& n > 0 ==> change.context is Some
            &&& n > 0 ==> change.context->0.before == ls.subrange(first - lesser(n, first), first)
            &&& n > 0 && next < ls.len() ==> change.context->0.after == ls.subrange(
                next as int,
                next + lesser(n, ls.len() - next),
            )
            &&& n > 0 && next >= ls.len() ==> change.context->0.after.len() == 0
        }),
{
}

proof fn lemma_contexts(
    ls: Seq<Seq<char>>,
    es: Seq<edits::LineEdit>,
    sep: Seq<char>,
    context_lines: int,
    n: int,
    k: int,
)
    requires
        0 <= n <= ls.len(),
        0 <= context_lines,
    ensures
        ({
            let changes = edits::edit_changes(ls, es, sep, context_lines, n);
            0 <= k < changes.len() ==> changes[k].context == if context_lines == 0 || k >= 1000 {
                None
            } else {
                Some(edits::context_around(ls, changes[k].line - 1, context_lines))
            }
        }),
    decreases n,
{
    if n > 0 {
        lemma_contexts(ls, es, sep, context_lines, n - 1, k);
    }
}

} // verus!
