//! What holds of the engine as a whole.
use vstd::prelude::*;

use crate::edits;
use crate::edits::{LineEdit, OutputView};
use crate::engine;
use crate::error;
use crate::lines;
use crate::matcher;
use crate::matcher::MatcherView;
use crate::multiline;
use crate::operation::{Action, OpView, RangeView, ReplaceCount};
use crate::range;
use crate::spans;
use crate::spans::Span;
use crate::splice;
use crate::splice_laws;
use crate::transform;

verus! {

/// What becomes of each line of a text, whichever way it is computed.
pub open spec fn edits_of(text: Seq<char>, op: OpView, m: MatcherView, range: Option<RangeView>) -> Seq<
    LineEdit,
> {
    if splice::is_spliced(text, op, m, range) {
        splice::spliced_edits(text, splice::splice_spans_of(text, op.action, m))
    } else {
        engine::pass_edits(op.action, m, range, lines::lines(text))
    }
}

/// Matches of a text are in order, inside it and do not overlap.
pub open spec fn matches_ok(text: Seq<char>, op: OpView, m: MatcherView) -> bool {
    spans::spans_ok(text.len(), m.spans(text, multiline::replacement_of(op.action)))
}

/// Where an operation is not a whole-buffer one, its output is that of editing
/// lines: both the text and the changes follow from one edit per line.
pub proof fn law_apply_edits_lines(
    text: Seq<char>,
    op: OpView,
    m: MatcherView,
    range: Option<RangeView>,
    context_lines: int,
)
    requires
        !op.multiline(),
        range::range_error(range) is None,
        matches_ok(text, op, m),
    ensures
        engine::apply_result(text, op, m, range, context_lines) == Ok::<
            OutputView,
            error::ErrorView,
        >(
            edits::edited_output(
                text,
                edits_of(text, op, m, range),
                engine::separator(text),
                context_lines,
            ),
        ),
{
    if splice::is_spliced(text, op, m, range) {
        let sp = splice::splice_spans_of(text, op.action, m);
        let es = splice::spliced_edits(text, sp);
        let ls = lines::lines(text);
        if sp.len() == 0 {
            assert forall|i: int| 0 <= i < es.len() implies es[i] is Keep by {
                assert(splice::spans_on_line(text, sp, i) =~= Seq::<Span>::empty());
            }
            engine::lemma_all_kept(
                ls,
                es,
                engine::separator(text),
                context_lines,
                ls.len() as int,
            );
        } else {
            splice_laws::lemma_spans_change(text, sp, context_lines);
            splice_laws::lemma_spliced_text(text, sp);
        }
    }
}

/// An operation reports a new text, an undo entry and at least one change, or
/// none of the three; the undo entry holds the original text.
pub proof fn law_undo_iff_changed(
    text: Seq<char>,
    op: OpView,
    m: MatcherView,
    range: Option<RangeView>,
    context_lines: int,
)
    requires
        matches_ok(text, op, m),
    ensures
        engine::apply_result(text, op, m, range, context_lines) matches Ok(out) ==> {
            &&& out.text is Some <==> out.changes.len() > 0
            &&& out.undo == if out.changes.len() > 0 {
                Some(text)
            } else {
                None
            }
        },
{
    if !op.multiline() && range::range_error(range) is None {
        law_apply_edits_lines(text, op, m, range, context_lines);
    }
}

/// Whether nothing that an operation looks at matches: the whole text, where
/// it is searched as one, and otherwise each of its lines.
pub open spec fn nothing_matches(
    text: Seq<char>,
    op: OpView,
    m: MatcherView,
    range: Option<RangeView>,
) -> bool {
    if op.multiline() || splice::is_spliced(text, op, m, range) {
        !m.is_match(text)
    } else {
        forall|i: int| #![trigger lines::lines(text)[i]]
            0 <= i < lines::lines(text).len() ==> !m.is_match(lines::lines(text)[i])
    }
}

/// Without a match nothing is changed, recorded or kept for an undo.
pub proof fn law_no_match_no_change(
    text: Seq<char>,
    op: OpView,
    m: MatcherView,
    range: Option<RangeView>,
    context_lines: int,
)
    requires
        nothing_matches(text, op, m, range),
    ensures
        engine::apply_result(text, op, m, range, context_lines) matches Ok(out) ==> out
            == edits::no_change(),
{
    let replacement = multiline::replacement_of(op.action);
    match m {
        MatcherView::Literal { pattern } => {
            matcher::lemma_literal_spans(text, pattern, replacement);
        },
        MatcherView::Regex { .. } => {},
    }
    if !op.multiline() && !splice::is_spliced(text, op, m, range) {
        let ls = lines::lines(text);
        let es = engine::pass_edits(op.action, m, range, ls);
        assert forall|i: int| 0 <= i < ls.len() implies es[i] is Keep by {
            assert(!m.is_match(ls[i]));
            match (op.action, m) {
                (Action::Replace { replace, .. }, MatcherView::Literal { pattern }) => {
                    matcher::lemma_literal_spans(ls[i], pattern, replace);
                },
                _ => {},
            }
        }
        engine::lemma_all_kept(
            ls,
            es,
            engine::separator(text),
            context_lines,
            ls.len() as int,
        );
    }
}

/// The changes of a text are listed in the order of their lines, at most one
/// per line; each names a line of the text and holds it.
pub proof fn law_changes_in_order(
    text: Seq<char>,
    es: Seq<LineEdit>,
    sep: Seq<char>,
    context_lines: int,
)
    ensures
        ({
            let ls = lines::lines(text);
            let changes = edits::edited_output(text, es, sep, context_lines).changes;
            &&& forall|k: int| #![trigger changes[k]]
                0 <= k < changes.len() ==> 1 <= changes[k].line <= ls.len() && changes[k].before
                    == ls[changes[k].line - 1]
            &&& forall|k: int, l: int| #![trigger changes[k], changes[l]]
                0 <= k < l < changes.len() ==> changes[k].line < changes[l].line
        }),
{
    let ls = lines::lines(text);
    lemma_changes_in_order(ls, es, sep, context_lines, ls.len() as int);
}

proof fn lemma_changes_in_order(
    ls: Seq<Seq<char>>,
    es: Seq<LineEdit>,
    sep: Seq<char>,
    context_lines: int,
    n: int,
)
    requires
        0 <= n <= ls.len(),
    ensures
        ({
            let changes = edits::edit_changes(ls, es, sep, context_lines, n);
            &&& forall|k: int| #![trigger changes[k]]
                0 <= k < changes.len() ==> 1 <= changes[k].line <= n && changes[k].before
                    == ls[changes[k].line - 1]
            &&& forall|k: int, l: int| #![trigger changes[k], changes[l]]
                0 <= k < l < changes.len() ==> changes[k].line < changes[l].line
        }),
    decreases n,
{
    if n > 0 {
        lemma_changes_in_order(ls, es, sep, context_lines, n - 1);
    }
}

/// How many of the first `n` lines match.
pub open spec fn matching_lines(m: MatcherView, ls: Seq<Seq<char>>, n: int) -> int
    decreases n,
{
    if n <= 0 {
        0
    } else {
        matching_lines(m, ls, n - 1) + if m.is_match(ls[n - 1]) {
            1int
        } else {
            0int
        }
    }
}

/// The lines among the first `n` that do not match.
pub open spec fn other_lines(m: MatcherView, ls: Seq<Seq<char>>, n: int) -> Seq<Seq<char>>
    decreases n,
{
    if n <= 0 {
        Seq::empty()
    } else if m.is_match(ls[n - 1]) {
        other_lines(m, ls, n - 1)
    } else {
        other_lines(m, ls, n - 1).push(ls[n - 1])
    }
}

/// A delete removes exactly the matching lines, with one change for each.
pub proof fn law_delete_removes_matches(text: Seq<char>, m: MatcherView, sep: Seq<char>, context_lines: int)
    ensures
        ({
            let ls = lines::lines(text);
            let n = ls.len() as int;
            let es = engine::pass_edits(Action::Delete { multiline: false }, m, None, ls);
            &&& edits::edit_lines(ls, es, n) == other_lines(m, ls, n)
            &&& edits::edit_changes(ls, es, sep, context_lines, n).len() == matching_lines(
                m,
                ls,
                n,
            )
            &&& other_lines(m, ls, n).len() == n - matching_lines(m, ls, n)
        }),
{
    let ls = lines::lines(text);
    lemma_delete(ls, m, sep, context_lines, ls.len() as int);
}

proof fn lemma_delete(
    ls: Seq<Seq<char>>,
    m: MatcherView,
    sep: Seq<char>,
    context_lines: int,
    n: int,
)
    requires
        0 <= n <= ls.len(),
    ensures
        ({
            let es = engine::pass_edits(Action::Delete { multiline: false }, m, None, ls);
            &&& edits::edit_lines(ls, es, n) == other_lines(m, ls, n)
            &&& edits::edit_changes(ls, es, sep, context_lines, n).len() == matching_lines(
                m,
                ls,
                n,
            )
            &&& other_lines(m, ls, n).len() == n - matching_lines(m, ls, n)
        }),
    decreases n,
{
    if n > 0 {
        lemma_delete(ls, m, sep, context_lines, n - 1);
        let es = engine::pass_edits(Action::Delete { multiline: false }, m, None, ls);
        assert(edits::edit_lines(ls, es, n) =~= other_lines(m, ls, n));
    } else {
        let es = engine::pass_edits(Action::Delete { multiline: false }, m, None, ls);
        assert(edits::edit_lines(ls, es, n) =~= other_lines(m, ls, n));
    }
}

/// Replacing every occurrence makes one change for each line that matches.
pub proof fn law_replace_changes_matching_lines(
    text: Seq<char>,
    pat: Seq<char>,
    replace: Seq<char>,
    sep: Seq<char>,
    context_lines: int,
)
    ensures
        ({
            let ls = lines::lines(text);
            let m = MatcherView::Literal { pattern: pat };
            let action = Action::Replace {
                replace,
                multiline: false,
                count: ReplaceCount::All,
            };
            let es = engine::pass_edits(action, m, None, ls);
            edits::edit_changes(ls, es, sep, context_lines, ls.len() as int).len()
                == matching_lines(m, ls, ls.len() as int)
        }),
{
    let ls = lines::lines(text);
    lemma_replace_all(ls, pat, replace, sep, context_lines, ls.len() as int);
}

proof fn lemma_replace_all(
    ls: Seq<Seq<char>>,
    pat: Seq<char>,
    replace: Seq<char>,
    sep: Seq<char>,
    context_lines: int,
    n: int,
)
    requires
        0 <= n <= ls.len(),
    ensures
        ({
            let m = MatcherView::Literal { pattern: pat };
            let action = Action::Replace {
                replace,
                multiline: false,
                count: ReplaceCount::All,
            };
            let es = engine::pass_edits(action, m, None, ls);
            &&& edits::edit_changes(ls, es, sep, context_lines, n).len() == matching_lines(
                m,
                ls,
                n,
            )
            &&& engine::state_at(action, m, None, ls, n).budget is None
        }),
    decreases n,
{
    if n > 0 {
        lemma_replace_all(ls, pat, replace, sep, context_lines, n - 1);
        matcher::lemma_literal_spans(ls[n - 1], pat, replace);
    }
}

// ---------------------------------------------------------------------------
// Lines of the output
// ---------------------------------------------------------------------------

/// Whether a separator is one that the engine joins lines with.
pub open spec fn is_separator(sep: Seq<char>) -> bool {
    sep == "\n"@ || sep == "\r\n"@
}

/// Whether a list of lines can be read back from the text that they are joined
/// to: none holds a newline, none that `\n` follows ends in `\r`, and the last
/// one is not lost for being empty.
pub open spec fn readable(ls: Seq<Seq<char>>, sep: Seq<char>, terminated: bool) -> bool {
    &&& forall|i: int| #![trigger ls[i]] 0 <= i < ls.len() ==> !ls[i].contains('\n')
    &&& sep == "\n"@ ==> forall|i: int| #![trigger ls[i]]
        0 <= i < ls.len() && (terminated || i < ls.len() - 1) ==> ls[i].len() == 0 || ls[i].last()
            != '\r'
    &&& !terminated && ls.len() > 0 ==> ls.last().len() > 0
}

/// Reading lines back from the text that they were joined to gives the lines.
pub proof fn law_lines_of_rejoined(ls: Seq<Seq<char>>, sep: Seq<char>, terminated: bool)
    requires
        is_separator(sep),
        readable(ls, sep, terminated),
    ensures
        lines::lines(edits::rejoin(ls, sep, terminated)) == ls,
{
    let text = edits::rejoin(ls, sep, terminated);
    reveal_strlit("\n");
    reveal_strlit("\r\n");
    if ls.len() == 0 {
        assert(text =~= Seq::<char>::empty());
        assert(lines::lines(text) =~= ls);
    } else {
        lemma_lines_of_joined(ls, sep, terminated, 0, 0);
        assert(ls.skip(0) =~= ls);
    }
}

/// Where line `i` of a joined text starts.
spec fn joined_at(ls: Seq<Seq<char>>, sep: Seq<char>, i: int) -> int
    decreases i,
{
    if i <= 0 {
        0
    } else {
        joined_at(ls, sep, i - 1) + ls[i - 1].len() + sep.len()
    }
}

/// A joined text holds each line where `joined_at` says, behind a separator.
proof fn lemma_joined_layout(ls: Seq<Seq<char>>, sep: Seq<char>, i: int)
    requires
        0 <= i < ls.len(),
    ensures
        ({
            let text = edits::join(ls, sep);
            let at = joined_at(ls, sep, i);
            &&& 0 <= at
            &&& at + ls[i].len() <= text.len()
            &&& text.subrange(at, at + ls[i].len()) == ls[i]
            &&& i < ls.len() - 1 ==> at + ls[i].len() + sep.len() <= text.len() && text.subrange(
                at + ls[i].len() as int,
                at + ls[i].len() + sep.len(),
            ) == sep
            &&& i == ls.len() - 1 ==> at + ls[i].len() == text.len()
        }),
    decreases ls.len(),
{
    let text = edits::join(ls, sep);
    if ls.len() == 1 {
        assert(text.subrange(0, ls[0].len() as int) =~= ls[0]);
    } else {
        let head = ls.drop_last();
        let n = ls.len() - 1;
        let before = edits::join(head, sep);
        lemma_joined_layout(head, sep, n - 1);
        lemma_joined_at_prefix(ls, head, sep, n - 1);
        assert(joined_at(ls, sep, n) == before.len() + sep.len());
        if i < n {
            lemma_joined_layout(head, sep, i);
            lemma_joined_at_prefix(ls, head, sep, i);
            let at = joined_at(ls, sep, i);
            assert(text.subrange(at, at + ls[i].len()) =~= before.subrange(at, at + ls[i].len()));
            if i < n - 1 {
                assert(text.subrange(at + ls[i].len() as int, at + ls[i].len() + sep.len())
                    =~= before.subrange(
                    at + ls[i].len() as int,
                    at + ls[i].len() + sep.len(),
                ));
            } else {
                assert(text.subrange(at + ls[i].len() as int, at + ls[i].len() + sep.len())
                    =~= sep);
            }
        } else {
            let at = joined_at(ls, sep, n);
            assert(text.subrange(at, at + ls[n].len()) =~= ls[n]);
        }
    }
}

proof fn lemma_joined_at_prefix(ls: Seq<Seq<char>>, head: Seq<Seq<char>>, sep: Seq<char>, i: int)
    requires
        0 <= i <= head.len() <= ls.len(),
        forall|k: int| 0 <= k < head.len() ==> head[k] == ls[k],
    ensures
        joined_at(ls, sep, i) == joined_at(head, sep, i),
    decreases i,
{
    if i > 0 {
        lemma_joined_at_prefix(ls, head, sep, i - 1);
    }
}

/// The same of a text that may be terminated.
proof fn lemma_rejoined_layout(ls: Seq<Seq<char>>, sep: Seq<char>, terminated: bool, i: int)
    requires
        0 <= i < ls.len(),
    ensures
        ({
            let text = edits::rejoin(ls, sep, terminated);
            let at = joined_at(ls, sep, i);
            let stop = at + ls[i].len();
            &&& 0 <= at
            &&& stop <= text.len()
            &&& text.subrange(at, stop) == ls[i]
            &&& terminated || i < ls.len() - 1 ==> stop + sep.len() <= text.len()
                && text.subrange(stop, stop + sep.len()) == sep
            &&& i == ls.len() - 1 ==> text.len() == stop + (if terminated {
                sep.len() as int
            } else {
                0
            })
        }),
{
    let text = edits::rejoin(ls, sep, terminated);
    let body = edits::join(ls, sep);
    lemma_joined_layout(ls, sep, i);
    let at = joined_at(ls, sep, i);
    let stop = at + ls[i].len();
    assert(text.subrange(at, stop) =~= body.subrange(at, stop));
    if i < ls.len() - 1 {
        assert(text.subrange(stop, stop + sep.len()) =~= body.subrange(stop, stop + sep.len()));
    } else if terminated {
        assert(text.subrange(stop, stop + sep.len()) =~= sep);
    }
}

/// A line in front of a separator is read back.
proof fn lemma_line_of_joined(
    text: Seq<char>,
    line: Seq<char>,
    sep: Seq<char>,
    at: int,
)
    requires
        is_separator(sep),
        !line.contains('\n'),
        sep == "\n"@ ==> line.len() == 0 || line.last() != '\r',
        0 <= at,
        at + line.len() + sep.len() <= text.len(),
        text.subrange(at, at + line.len()) == line,
        text.subrange(at + line.len() as int, at + line.len() + sep.len()) == sep,
    ensures
        ({
            let e = at + line.len() + sep.len() - 1;
            &&& lines::first_newline(text, at) == e
            &&& lines::content_end(text, at, e) == at + line.len()
        }),
{
    reveal_strlit("\n");
    reveal_strlit("\r\n");
    let stop = at + line.len();
    let e = stop + sep.len() - 1;
    assert forall|k: int| at <= k < stop implies text[k] == line[k - at] by {
        assert(text.subrange(at, stop)[k - at] == text[k]);
    }
    assert forall|k: int| stop <= k <= e implies text[k] == sep[k - stop] by {
        assert(text.subrange(stop, stop + sep.len())[k - stop] == text[k]);
    }
    assert forall|k: int| at <= k < e implies text[k] != '\n' by {
        if k < stop {
            assert(line.contains(line[k - at]));
        }
    }
    lines::lemma_first_newline_is(text, at, e);
}

/// The lines from a line that ends at `e` on.
proof fn lemma_lines_from_step(text: Seq<char>, at: int, e: int, stop: int)
    requires
        0 <= at < text.len(),
        lines::first_newline(text, at) == e,
        lines::content_end(text, at, e) == stop,
    ensures
        lines::lines_from(text, at) == seq![text.subrange(at, stop)] + lines::lines_from(
            text,
            e + 1,
        ),
{
}

/// The lines of a joined text from line `i` on.
#[verifier::spinoff_prover]
proof fn lemma_lines_of_joined(
    ls: Seq<Seq<char>>,
    sep: Seq<char>,
    terminated: bool,
    i: int,
    at: int,
)
    requires
        is_separator(sep),
        readable(ls, sep, terminated),
        0 <= i < ls.len(),
        at == joined_at(ls, sep, i),
    ensures
        lines::lines_from(edits::rejoin(ls, sep, terminated), at) == ls.skip(i),
    decreases ls.len() - i,
{
    let text = edits::rejoin(ls, sep, terminated);
    lemma_rejoined_layout(ls, sep, terminated, i);
    lemma_separator_count(sep);
    let line = ls[i];
    let stop = at + line.len();
    if terminated || i < ls.len() - 1 {
        lemma_line_of_joined(text, line, sep, at);
        let e = stop + sep.len() - 1;
        lemma_lines_from_step(text, at, e, stop);
        if i < ls.len() - 1 {
            lemma_lines_of_joined(ls, sep, terminated, i + 1, e + 1);
            assert(ls.skip(i) =~= seq![line] + ls.skip(i + 1));
        } else {
            assert(lines::lines_from(text, e + 1) =~= Seq::<Seq<char>>::empty());
            assert(ls.skip(i) =~= seq![line] + Seq::<Seq<char>>::empty());
        }
    } else {
        assert forall|k: int| at <= k < stop implies text[k] != '\n' by {
            assert(text.subrange(at, stop)[k - at] == text[k]);
            assert(line.contains(line[k - at]));
        }
        lines::lemma_first_newline_is(text, at, stop);
        lemma_lines_from_step(text, at, stop, stop);
        assert(lines::lines_from(text, stop + 1) =~= Seq::<Seq<char>>::empty());
        assert(ls.skip(i) =~= seq![line] + Seq::<Seq<char>>::empty());
    }
}

/// The lines of a text hold no newline.
pub proof fn law_lines_hold_no_newline(text: Seq<char>, i: int)
    requires
        0 <= i < lines::lines(text).len(),
    ensures
        !lines::lines(text)[i].contains('\n'),
{
    lines::lemma_lines_from_index(text, 0, i);
    let b = lines::nth_begin(text, 0, i);
    lines::lemma_first_newline(text, b);
    let line = lines::lines(text)[i];
    assert forall|k: int| 0 <= k < line.len() implies line[k] != '\n' by {
        assert(line[k] == text[b + k]);
    }
}

/// Newlines of joined lines: one per separator.
proof fn lemma_newlines_joined(ls: Seq<Seq<char>>, sep: Seq<char>)
    requires
        is_separator(sep),
        forall|i: int| #![trigger ls[i]] 0 <= i < ls.len() ==> !ls[i].contains('\n'),
    ensures
        lines::newline_count(edits::join(ls, sep)) == (if ls.len() == 0 {
            0int
        } else {
            ls.len() - 1
        }),
    decreases ls.len(),
{
    if ls.len() == 0 {
    } else if ls.len() == 1 {
        lemma_no_newline_count(ls[0]);
    } else {
        let head = ls.drop_last();
        lemma_newlines_joined(head, sep);
        lemma_no_newline_count(ls.last());
        lemma_separator_count(sep);
        lines::lemma_newline_count_append(edits::join(head, sep), sep);
        lines::lemma_newline_count_append(edits::join(head, sep) + sep, ls.last());
    }
}

proof fn lemma_no_newline_count(s: Seq<char>)
    requires
        !s.contains('\n'),
    ensures
        lines::newline_count(s) == 0,
{
    assert forall|k: int| 0 <= k < s.len() implies s[k] != '\n' by {
        assert(s.contains(s[k]));
    }
    lines::lemma_newline_count_none(s);
}

proof fn lemma_separator_count(sep: Seq<char>)
    requires
        is_separator(sep),
    ensures
        lines::newline_count(sep) == 1,
        sep.len() > 0,
        sep.last() == '\n',
{
    reveal_strlit("\n");
    reveal_strlit("\r\n");
    reveal_with_fuel(lines::newline_count, 3);
    if sep == "\n"@ {
        assert(sep.drop_last() =~= Seq::<char>::empty());
    } else {
        assert(sep.drop_last().drop_last() =~= Seq::<char>::empty());
        assert(sep.drop_last().last() == '\r');
    }
}

/// Whether every line is kept or replaced by one other line.
pub open spec fn one_for_one(es: Seq<LineEdit>, n: int) -> bool {
    forall|i: int| #![trigger es[i]] 0 <= i < n ==> es[i] is Keep || es[i] is Put
}

/// Replacing, transforming, surrounding, indenting and dedenting keep or
/// replace every line by one line.
pub proof fn law_one_for_one(
    text: Seq<char>,
    op: OpView,
    m: MatcherView,
    range: Option<RangeView>,
)
    requires
        !(op.action is Delete),
        !(op.action is InsertAfter),
        !(op.action is InsertBefore),
    ensures
        one_for_one(edits_of(text, op, m, range), lines::lines(text).len() as int),
{
    let es = edits_of(text, op, m, range);
    assert forall|i: int| 0 <= i < lines::lines(text).len() implies (#[trigger] es[i]) is Keep
        || es[i] is Put by {}
}

/// Edits that keep or replace every line keep the number of lines.
pub proof fn law_edits_keep_line_count(ls: Seq<Seq<char>>, es: Seq<LineEdit>, n: int)
    requires
        0 <= n <= ls.len(),
        one_for_one(es, n),
    ensures
        edits::edit_lines(ls, es, n).len() == n,
    decreases n,
{
    if n > 0 {
        law_edits_keep_line_count(ls, es, n - 1);
    }
}

/// An operation that keeps or replaces every line of a terminated text, and
/// puts no newline into a line, keeps the number of lines of the text.
pub proof fn law_output_keeps_line_count(
    text: Seq<char>,
    es: Seq<LineEdit>,
    context_lines: int,
)
    requires
        edits::ends_with_newline(text),
        one_for_one(es, lines::lines(text).len() as int),
        ({
            let out = edits::edit_lines(lines::lines(text), es, lines::lines(text).len() as int);
            forall|i: int| #![trigger out[i]] 0 <= i < out.len() ==> !out[i].contains('\n')
        }),
    ensures
        edits::edited_output(text, es, engine::separator(text), context_lines).text matches Some(t)
            ==> lines::lines(t).len() == lines::lines(text).len(),
{
    let ls = lines::lines(text);
    let n = ls.len() as int;
    let sep = engine::separator(text);
    let out = edits::edit_lines(ls, es, n);
    law_edits_keep_line_count(ls, es, n);
    let t = edits::rejoin(out, sep, true);
    lemma_newlines_joined(out, sep);
    lemma_separator_count(sep);
    lines::lemma_newline_count_append(edits::join(out, sep), sep);
    lines::lemma_lines_len(t, 0);
    assert(t.skip(0) =~= t);
    lines::lemma_lines_len(text, 0);
    assert(text.skip(0) =~= text);
    if n > 0 {
        assert(t.last() == '\n');
    } else {
        assert(text.last() == '\n');
        assert(lines::newline_count(text) > 0);
    }
}

/// An operation keeps the final newline of a text, as long as a line is left,
/// and adds none to a text without one, as long as its last line is neither
/// empty nor ends in a newline.
pub proof fn law_final_newline_kept(text: Seq<char>, es: Seq<LineEdit>, context_lines: int)
    ensures
        ({
            let out = edits::edit_lines(lines::lines(text), es, lines::lines(text).len() as int);
            edits::edited_output(text, es, engine::separator(text), context_lines).text matches Some(
                t,
            ) ==> {
                &&& edits::ends_with_newline(text) && out.len() > 0 ==> edits::ends_with_newline(t)
                &&& !edits::ends_with_newline(text) && out.len() > 0 && out.last().len() > 0
                    && out.last().last() != '\n' ==> !edits::ends_with_newline(t)
                &&& out.len() == 0 ==> t.len() == 0
            }
        }),
{
    let ls = lines::lines(text);
    let n = ls.len() as int;
    let sep = engine::separator(text);
    let out = edits::edit_lines(ls, es, n);
    lemma_separator_count(sep);
    if out.len() > 0 {
        let t = edits::rejoin(out, sep, edits::ends_with_newline(text));
        if edits::ends_with_newline(text) {
            assert(t.last() == sep.last());
        } else {
            assert(t =~= edits::join(out, sep));
            if out.last().len() > 0 {
                assert(t.last() == out.last().last());
            }
        }
    }
}

/// Whether character `k` is no bare `\n`.
spec fn not_bare(s: Seq<char>, k: int) -> bool {
    s[k] == '\n' ==> k >= 1 && s[k - 1] == '\r'
}

/// Joining with `\r\n` leaves no bare `\n`.
proof fn lemma_crlf_joined(ls: Seq<Seq<char>>, terminated: bool)
    requires
        forall|i: int| #![trigger ls[i]] 0 <= i < ls.len() ==> !ls[i].contains('\n'),
    ensures
        ({
            let t = edits::rejoin(ls, "\r\n"@, terminated);
            forall|k: int| 0 <= k < t.len() ==> #[trigger] not_bare(t, k)
        }),
    decreases ls.len(), terminated as int,
{
    let sep = "\r\n"@;
    reveal_strlit("\r\n");
    let body = edits::join(ls, sep);
    let t = edits::rejoin(ls, sep, terminated);
    if terminated {
        lemma_crlf_joined(ls, false);
        assert(edits::rejoin(ls, sep, false) =~= body);
        assert forall|k: int| 0 <= k < t.len() implies #[trigger] not_bare(t, k) by {
            if k < body.len() {
                assert(not_bare(body, k));
            }
        }
    } else if ls.len() <= 1 {
        assert(t =~= body);
        assert forall|k: int| 0 <= k < t.len() implies #[trigger] not_bare(t, k) by {
            assert(ls[0].contains(ls[0][k]));
        }
    } else {
        let head = ls.drop_last();
        lemma_crlf_joined(head, true);
        let before = edits::rejoin(head, sep, true);
        assert(t =~= before + ls.last());
        assert forall|k: int| 0 <= k < t.len() implies #[trigger] not_bare(t, k) by {
            if k >= before.len() {
                assert(ls.last().contains(ls.last()[k - before.len()]));
            } else {
                assert(not_bare(before, k));
            }
        }
    }
}

proof fn lemma_no_bare_lf(s: Seq<char>, n: int)
    requires
        0 <= n <= s.len(),
        forall|k: int| 0 <= k < n ==> #[trigger] not_bare(s, k),
    ensures
        engine::bare_lf_count(s, n) == 0,
    decreases n,
{
    if n > 0 {
        lemma_no_bare_lf(s, n - 1);
        assert(not_bare(s, n - 1));
    }
}

proof fn lemma_all_newlines_counted(s: Seq<char>, n: int)
    requires
        0 <= n <= s.len(),
    ensures
        engine::crlf_count(s, n) + engine::bare_lf_count(s, n) == lines::newline_count(s.take(n)),
    decreases n,
{
    if n > 0 {
        lemma_all_newlines_counted(s, n - 1);
        assert(s.take(n).drop_last() =~= s.take(n - 1));
    } else {
        assert(s.take(0) =~= Seq::<char>::empty());
    }
}

/// A text that mostly uses `\r\n` does so behind an operation that keeps or
/// replaces every line and puts no newline into one; no bare `\n` is left.
pub proof fn law_crlf_majority_kept(text: Seq<char>, es: Seq<LineEdit>, context_lines: int)
    requires
        engine::mostly_crlf(text),
        one_for_one(es, lines::lines(text).len() as int),
        ({
            let out = edits::edit_lines(lines::lines(text), es, lines::lines(text).len() as int);
            forall|i: int| #![trigger out[i]] 0 <= i < out.len() ==> !out[i].contains('\n')
        }),
    ensures
        edits::edited_output(text, es, engine::separator(text), context_lines).text matches Some(t)
            ==> engine::mostly_crlf(t) && engine::bare_lf_count(t, t.len() as int) == 0,
{
    let ls = lines::lines(text);
    let n = ls.len() as int;
    let out = edits::edit_lines(ls, es, n);
    let sep = engine::separator(text);
    let terminated = edits::ends_with_newline(text);
    law_edits_keep_line_count(ls, es, n);
    let t = edits::rejoin(out, sep, terminated);
    lemma_crlf_joined(out, terminated);
    lemma_no_bare_lf(t, t.len() as int);
    lemma_all_newlines_counted(t, t.len() as int);
    assert(t.take(t.len() as int) =~= t);
    lemma_all_newlines_counted(text, text.len() as int);
    assert(text.take(text.len() as int) =~= text);
    lines::lemma_lines_len(text, 0);
    assert(text.skip(0) =~= text);
    lemma_newlines_joined(out, sep);
    lemma_separator_count(sep);
    if terminated {
        lines::lemma_newline_count_append(edits::join(out, sep), sep);
    } else {
        assert(t =~= edits::join(out, sep));
    }
}

// ---------------------------------------------------------------------------
// Streams
// ---------------------------------------------------------------------------

/// What a [`engine::LineProcessor`] emits for the first `n` lines, fed in order.
pub open spec fn streamed_lines(
    action: Action,
    m: MatcherView,
    range: Option<RangeView>,
    ls: Seq<Seq<char>>,
    n: int,
) -> Seq<Seq<char>>
    decreases n,
{
    if n <= 0 {
        Seq::empty()
    } else {
        streamed_lines(action, m, range, ls, n - 1) + edits::emitted(
            engine::step_edit(
                action,
                m,
                range,
                streamed_state(action, m, range, ls, n - 1),
                n,
                ls[n - 1],
            ),
            ls[n - 1],
        )
    }
}

/// The state of a processor behind the first `n` lines.
pub open spec fn streamed_state(
    action: Action,
    m: MatcherView,
    range: Option<RangeView>,
    ls: Seq<Seq<char>>,
    n: int,
) -> engine::PassState
    decreases n,
{
    if n <= 0 {
        engine::pass_start(action)
    } else {
        engine::step_state(
            action,
            m,
            range,
            streamed_state(action, m, range, ls, n - 1),
            n,
            ls[n - 1],
        )
    }
}

/// Feeding the lines of a text to a processor emits the lines that the pass
/// over the whole text leaves.
pub proof fn law_stream_is_pass(
    action: Action,
    m: MatcherView,
    range: Option<RangeView>,
    ls: Seq<Seq<char>>,
    n: int,
)
    requires
        0 <= n <= ls.len(),
    ensures
        streamed_state(action, m, range, ls, n) == engine::state_at(action, m, range, ls, n),
        streamed_lines(action, m, range, ls, n) == edits::edit_lines(
            ls,
            engine::pass_edits(action, m, range, ls),
            n,
        ),
    decreases n,
{
    if n > 0 {
        law_stream_is_pass(action, m, range, ls, n - 1);
    }
}

// ---------------------------------------------------------------------------
// Matches
// ---------------------------------------------------------------------------

/// Splicing the matched texts back in gives the text.
proof fn lemma_splice_same(text: Seq<char>, sp: Seq<Span>, n: int)
    requires
        spans::spans_ok(text.len(), sp),
        0 <= n <= sp.len(),
        forall|k: int| #![trigger sp[k]]
            0 <= k < sp.len() ==> sp[k].replacement == text.subrange(sp[k].start, sp[k].end),
    ensures
        0 <= spans::resume_at(sp, n) <= text.len(),
        spans::spliced_prefix(text, sp, n) == text.take(spans::resume_at(sp, n)),
    decreases n,
{
    if n > 0 {
        lemma_splice_same(text, sp, n - 1);
        let s = sp[n - 1];
        let from = spans::resume_at(sp, n - 1);
        if n - 1 > 0 {
            assert(sp[n - 2].end <= s.start);
        }
        assert(spans::spliced_prefix(text, sp, n) =~= text.take(s.end));
    } else {
        assert(spans::spliced_prefix(text, sp, 0) =~= text.take(0));
    }
}

/// Replacing a literal by itself gives the text back.
pub proof fn law_replace_with_self(text: Seq<char>, pat: Seq<char>)
    ensures
        spans::splice(text, matcher::literal_spans(text, pat, pat)) == text,
{
    let sp = matcher::literal_spans(text, pat, pat);
    matcher::lemma_literal_spans(text, pat, pat);
    matcher::lemma_literal_starts(text, pat, 0);
    assert forall|k: int| 0 <= k < sp.len() implies (#[trigger] sp[k]).replacement
        == text.subrange(sp[k].start, sp[k].end) by {
        let starts = matcher::literal_starts(text, pat, 0);
        assert(matcher::occurs_at(text, pat, starts[k]));
    }
    lemma_splice_same(text, sp, sp.len() as int);
    assert(spans::splice(text, sp) =~= text);
}

/// A replace of every match does to the whole buffer what `Matcher::replace`
/// does to a text.
pub proof fn law_multiline_is_replace(
    text: Seq<char>,
    replace: Seq<char>,
    m: MatcherView,
    context_lines: int,
)
    ensures
        ({
            let action = Action::Replace { replace, multiline: true, count: ReplaceCount::All };
            let sp = m.spans(text, replace);
            multiline::multiline_output(text, action, m, context_lines).text == if sp.len() == 0 {
                None
            } else {
                Some(spans::splice(text, sp))
            }
        }),
{
}

/// Where a literal does not occur in a text, it occurs on none of its lines, so
/// that the pass over the lines can be left out.
pub proof fn law_prescreen_is_safe(text: Seq<char>, pat: Seq<char>)
    requires
        !matcher::contains(text, pat),
    ensures
        forall|i: int| #![trigger lines::lines(text)[i]]
            0 <= i < lines::lines(text).len() ==> !matcher::contains(lines::lines(text)[i], pat),
{
    assert forall|i: int| #![trigger lines::lines(text)[i]]
        0 <= i < lines::lines(text).len() implies !matcher::contains(
        lines::lines(text)[i],
        pat,
    ) by {
        if matcher::contains(lines::lines(text)[i], pat) {
            engine::lemma_contains_of_line(text, pat, i);
        }
    }
}

// ---------------------------------------------------------------------------
// Budgets and ranges
// ---------------------------------------------------------------------------

/// How many occurrences the first `n` lines have replaced.
pub open spec fn replaced_total(
    action: Action,
    m: MatcherView,
    range: Option<RangeView>,
    ls: Seq<Seq<char>>,
    n: int,
) -> nat
    decreases n,
{
    if n <= 0 {
        0
    } else {
        let st = engine::state_at(action, m, range, ls, n - 1);
        replaced_total(action, m, range, ls, n - 1) + match action {
            Action::Replace { replace, count, .. } => if range::admits(
                range,
                st.active,
                n,
                ls[n - 1],
            ) {
                engine::line_spans(m, ls[n - 1], replace, count, st.budget).len()
            } else {
                0
            },
            _ => 0,
        }
    }
}

/// A replace with a limit for the text replaces no more occurrences than the
/// limit; what it has not replaced is what is left.
pub proof fn law_budget_is_kept(
    action: Action,
    m: MatcherView,
    range: Option<RangeView>,
    ls: Seq<Seq<char>>,
    n: int,
)
    requires
        0 <= n <= ls.len(),
        engine::replace_budget_of(action) is Some,
    ensures
        ({
            let limit = engine::replace_budget_of(action)->0;
            let left = engine::state_at(action, m, range, ls, n).budget;
            &&& left is Some
            &&& left->0 >= 0
            &&& replaced_total(action, m, range, ls, n) + left->0 == limit
        }),
    decreases n,
{
    if n > 0 {
        law_budget_is_kept(action, m, range, ls, n - 1);
    }
}

/// A region that opens on line `i` and whose end pattern matches no later line
/// before `j` holds line `j`: the end pattern is not tested on the opening
/// line, and an unclosed region runs on.
pub proof fn law_open_region_runs_on(
    action: Action,
    m: MatcherView,
    start: Seq<char>,
    end: Seq<char>,
    ls: Seq<Seq<char>>,
    i: int,
    j: int,
)
    requires
        0 <= i < j < ls.len(),
        !engine::state_at(action, m, Some(RangeView::Patterns { start, end }), ls, i).active,
        crate::rex::regex_matches(start, ls[i]),
        forall|k: int| i < k < j ==> !crate::rex::regex_matches(end, #[trigger] ls[k]),
    ensures
        ({
            let range = Some(RangeView::Patterns { start, end });
            let st = engine::state_at(action, m, range, ls, j);
            st.active && range::admits(range, st.active, j + 1, ls[j])
        }),
    decreases j - i,
{
    let range = Some(RangeView::Patterns { start, end });
    if j == i + 1 {
        assert(engine::state_at(action, m, range, ls, j).active);
    } else {
        law_open_region_runs_on(action, m, start, end, ls, i, j - 1);
        assert(engine::state_at(action, m, range, ls, j).active);
    }
}

/// The line that matches the end pattern of an open region is the last line of
/// the region; a line outside a region is touched only if it opens one.
pub proof fn law_region_closes_behind_its_end(
    action: Action,
    m: MatcherView,
    start: Seq<char>,
    end: Seq<char>,
    ls: Seq<Seq<char>>,
    i: int,
)
    requires
        0 <= i < ls.len(),
        engine::state_at(action, m, Some(RangeView::Patterns { start, end }), ls, i).active,
        crate::rex::regex_matches(end, ls[i]),
    ensures
        ({
            let range = Some(RangeView::Patterns { start, end });
            &&& range::admits(
                range,
                engine::state_at(action, m, range, ls, i).active,
                i + 1,
                ls[i],
            )
            &&& !engine::state_at(action, m, range, ls, i + 1).active
            &&& i + 1 < ls.len() && !crate::rex::regex_matches(start, ls[i + 1])
                ==> engine::edit_at(action, m, range, ls, i + 1) is Keep
        }),
{
}

// ---------------------------------------------------------------------------
// Indentation
// ---------------------------------------------------------------------------

/// Dedenting a line by what it was indented by gives the line back.
pub proof fn law_dedent_undoes_indent(line: Seq<char>, amount: nat, use_tabs: bool)
    ensures
        transform::dedented(
            transform::indent_text(amount, use_tabs) + line,
            amount,
            use_tabs,
        ) == line,
{
    let c = transform::indent_char(use_tabs);
    let t = transform::indent_text(amount, use_tabs) + line;
    transform::lemma_leading_run(t, c, amount as int);
    assert(t.skip(amount as int) =~= line);
}

/// Whether a text uses one line ending throughout.
pub open spec fn uniform_endings(text: Seq<char>) -> bool {
    engine::crlf_count(text, text.len() as int) == 0 || engine::bare_lf_count(
        text,
        text.len() as int,
    ) == 0
}

/// Joining the lines of a text with uniform line endings gives the text.
pub proof fn law_rejoin_restores(text: Seq<char>)
    requires
        uniform_endings(text),
    ensures
        edits::rejoin(
            lines::lines(text),
            engine::separator(text),
            edits::ends_with_newline(text),
        ) == text,
{
    let sp = Seq::<Span>::empty();
    let ls = lines::lines(text);
    let es = splice::spliced_edits(text, sp);
    splice_laws::lemma_spliced_text(text, sp);
    assert(spans::splice(text, sp) =~= text);
    assert forall|i: int| 0 <= i < ls.len() implies es[i] is Keep by {
        assert(splice::spans_on_line(text, sp, i) =~= Seq::<Span>::empty());
    }
    lemma_kept_lines(ls, es, ls.len() as int);
    assert(ls.take(ls.len() as int) =~= ls);
}

pub proof fn lemma_kept_lines(ls: Seq<Seq<char>>, es: Seq<LineEdit>, n: int)
    requires
        0 <= n <= ls.len(),
        forall|i: int| 0 <= i < n ==> es[i] is Keep,
    ensures
        edits::edit_lines(ls, es, n) == ls.take(n),
    decreases n,
{
    if n > 0 {
        lemma_kept_lines(ls, es, n - 1);
        assert(ls.take(n - 1) + seq![ls[n - 1]] =~= ls.take(n));
    } else {
        assert(edits::edit_lines(ls, es, n) =~= ls.take(n));
    }
}

/// A `\r` before a `\n` is counted.
pub proof fn lemma_crlf_counted(s: Seq<char>, k: int, n: int)
    requires
        1 <= k < n <= s.len(),
        s[k] == '\n',
        s[k - 1] == '\r',
    ensures
        engine::crlf_count(s, n) > 0,
    decreases n,
{
    if k < n - 1 {
        lemma_crlf_counted(s, k, n - 1);
    }
}

pub proof fn lemma_no_crlf(s: Seq<char>, n: int)
    requires
        0 <= n <= s.len(),
        forall|k: int| 1 <= k < n && s[k] == '\n' ==> #[trigger] s[k - 1] != '\r',
    ensures
        engine::crlf_count(s, n) == 0,
    decreases n,
{
    if n > 0 {
        lemma_no_crlf(s, n - 1);
        if n >= 2 && s[n - 1] == '\n' {
            assert(s[(n - 1) - 1] != '\r');
        }
    }
}

/// In a text without `\r\n`, no terminated line ends in `\r`.
proof fn lemma_lf_lines(text: Seq<char>, i: int)
    requires
        engine::crlf_count(text, text.len() as int) == 0,
        0 <= i < lines::lines(text).len(),
        edits::ends_with_newline(text) || i < lines::lines(text).len() - 1,
    ensures
        lines::lines(text)[i].len() == 0 || lines::lines(text)[i].last() != '\r',
{
    lines::lemma_lines_from_index(text, 0, i);
    let b = lines::nth_begin(text, 0, i);
    lines::lemma_first_newline(text, b);
    let e = lines::first_newline(text, b);
    if e == text.len() {
        // An unterminated line is the last.
        assert(lines::lines_from(text, e + 1) =~= Seq::<Seq<char>>::empty());
        assert(lines::lines(text).skip(i).len() == 1);
        assert(text.last() != '\n');
    } else if b < e && text[e - 1] == '\r' {
        lemma_crlf_counted(text, e, text.len() as int);
    }
}

/// Joining with `\n` makes no `\r\n` where no line that it follows ends in `\r`.
proof fn lemma_lf_joined(ls: Seq<Seq<char>>, terminated: bool, k: int)
    requires
        readable(ls, "\n"@, terminated),
        1 <= k < edits::rejoin(ls, "\n"@, terminated).len(),
        edits::rejoin(ls, "\n"@, terminated)[k] == '\n',
    ensures
        edits::rejoin(ls, "\n"@, terminated)[k - 1] != '\r',
    decreases ls.len(),
{
    reveal_strlit("\n");
    let sep = "\n"@;
    let t = edits::rejoin(ls, sep, terminated);
    let body = edits::join(ls, sep);
    if ls.len() == 0 {
        assert(t.len() == 0);
    } else {
        let head = ls.drop_last();
        let last = ls.last();
        let before = edits::rejoin(head, sep, true);
        if ls.len() == 1 {
            assert(before =~= Seq::<char>::empty());
        }
        assert(body =~= before + last);
        if k < before.len() {
            if ls.len() > 1 {
                assert(readable(head, sep, true)) by {
                    assert forall|i: int| 0 <= i < head.len() implies !(#[trigger] head[i]).contains(
                        '\n',
                    ) && (head[i].len() == 0 || head[i].last() != '\r') by {
                        assert(head[i] == ls[i]);
                    }
                }
                assert(before[k] == '\n');
                lemma_lf_joined(head, true, k);
                assert(t[k - 1] == before[k - 1]);
            }
        } else if k < body.len() {
            assert(last.contains(last[k - before.len()]));
        } else {
            if last.len() > 0 {
                assert(ls[ls.len() - 1].last() != '\r');
                assert(t[k - 1] == last.last());
            } else {
                assert(t[k - 1] == before[before.len() - 1]);
                assert(before.last() == '\n');
            }
        }
    }
}

/// What indenting makes of lines: those that a literal stands on are indented.
spec fn indented_lines(ls: Seq<Seq<char>>, pat: Seq<char>, ind: Seq<char>) -> Seq<Seq<char>> {
    ls.map_values(
        |l: Seq<char>|
            if matcher::contains(l, pat) {
                ind + l
            } else {
                l
            },
    )
}

/// Whether edits put given lines in place of lines, or keep them.
spec fn puts_lines(ls: Seq<Seq<char>>, es: Seq<LineEdit>, want: Seq<Seq<char>>) -> bool {
    &&& es.len() == ls.len() == want.len()
    &&& forall|i: int| #![trigger es[i]]
        0 <= i < ls.len() ==> es[i] == (LineEdit::Put { line: want[i] }) || es[i] is Keep && want[i]
            == ls[i]
}

/// Edits that put given lines.
proof fn lemma_put_lines(ls: Seq<Seq<char>>, es: Seq<LineEdit>, want: Seq<Seq<char>>, n: int)
    requires
        0 <= n <= ls.len(),
        puts_lines(ls, es, want),
    ensures
        edits::edit_lines(ls, es, n) == want.take(n),
    decreases n,
{
    if n > 0 {
        lemma_put_lines(ls, es, want, n - 1);
        assert(es[n - 1] is Put || es[n - 1] is Keep);
        assert(want.take(n - 1) + seq![want[n - 1]] =~= want.take(n));
    } else {
        assert(edits::edit_lines(ls, es, n) =~= want.take(n));
    }
}

/// There are changes just where some line is not kept.
proof fn lemma_changes_of_edits(
    ls: Seq<Seq<char>>,
    es: Seq<LineEdit>,
    sep: Seq<char>,
    context_lines: int,
    n: int,
)
    requires
        0 <= n <= es.len(),
    ensures
        edits::edit_changes(ls, es, sep, context_lines, n).len() > 0 <==> exists|i: int|
            0 <= i < n && !(#[trigger] es[i] is Keep),
    decreases n,
{
    if n > 0 {
        lemma_changes_of_edits(ls, es, sep, context_lines, n - 1);
        if !(es[n - 1] is Keep) {
            assert(edits::edit_changes(ls, es, sep, context_lines, n).len() > 0);
        }
    }
}

/// A pass that puts a new line in place of some lines.
proof fn lemma_pass_puts(
    text: Seq<char>,
    action: Action,
    m: MatcherView,
    want: Seq<Seq<char>>,
    k: int,
    context_lines: int,
)
    requires
        puts_lines(
            lines::lines(text),
            engine::pass_edits(action, m, None, lines::lines(text)),
            want,
        ),
        0 <= k < lines::lines(text).len(),
        engine::pass_edits(action, m, None, lines::lines(text))[k] is Put,
    ensures
        engine::line_output(text, action, m, None, context_lines).text == Some(
            edits::rejoin(want, engine::separator(text), edits::ends_with_newline(text)),
        ),
{
    let ls = lines::lines(text);
    let n = ls.len() as int;
    let es = engine::pass_edits(action, m, None, ls);
    lemma_put_lines(ls, es, want, n);
    assert(want.take(n) =~= want);
    lemma_changes_of_edits(ls, es, engine::separator(text), context_lines, n);
    assert(!(es[k] is Keep));
}

/// An unterminated last line is not empty.
proof fn lemma_unterminated_line(text: Seq<char>)
    requires
        text.len() > 0,
        !edits::ends_with_newline(text),
    ensures
        lines::lines(text).len() > 0,
        lines::lines(text).last().len() > 0,
{
    lines::lemma_lines_len(text, 0);
    assert(text.skip(0) =~= text);
    let n = lines::lines(text).len() as int;
    lines::lemma_lines_from_index(text, 0, n - 1);
    let b = lines::nth_begin(text, 0, n - 1);
    lines::lemma_first_newline(text, b);
    let e = lines::first_newline(text, b);
    if e < text.len() {
        assert(lines::lines(text).skip(n - 1).len() == 1);
        assert(lines::lines_from(text, e + 1).len() == 0);
        assert(e + 1 == text.len());
    }
}

/// A literal on a line stays on it behind indentation.
proof fn lemma_contains_indented(line: Seq<char>, ind: Seq<char>, pat: Seq<char>)
    requires
        matcher::contains(line, pat),
    ensures
        matcher::contains(ind + line, pat),
{
    let j = choose|j: int| matcher::occurs_at(line, pat, j);
    let at = ind.len() + j;
    assert((ind + line).subrange(at, at + pat.len()) =~= line.subrange(j, j + pat.len()));
    assert(matcher::occurs_at(ind + line, pat, at));
}

/// The operation that indents the lines that a literal stands on.
pub open spec fn indent_op(pat: Seq<char>, amount: usize, use_tabs: bool) -> OpView {
    OpView {
        find: pat,
        regex: false,
        case_insensitive: false,
        action: Action::Indent { amount, use_tabs },
    }
}

/// The operation that dedents the lines that a literal stands on.
pub open spec fn dedent_op(pat: Seq<char>, amount: usize, use_tabs: bool) -> OpView {
    OpView { action: Action::Dedent { amount, use_tabs }, ..indent_op(pat, amount, use_tabs) }
}

/// Indenting the lines that a literal stands on, and then dedenting those that
/// it stands on by the same amount, gives a text back to the letter where its
/// line endings are uniform and indenting changed it.
pub proof fn law_indent_then_dedent(
    text: Seq<char>,
    pat: Seq<char>,
    amount: usize,
    use_tabs: bool,
    context_lines: int,
)
    requires
        uniform_endings(text),
        engine::apply_result(
            text,
            indent_op(pat, amount, use_tabs),
            matcher::matcher_of(indent_op(pat, amount, use_tabs)),
            None,
            context_lines,
        ) matches Ok(out) && out.text is Some,
    ensures
        ({
            let ind = indent_op(pat, amount, use_tabs);
            let ded = dedent_op(pat, amount, use_tabs);
            let t = engine::apply_result(
                text,
                ind,
                matcher::matcher_of(ind),
                None,
                context_lines,
            )->Ok_0.text->0;
            engine::apply_result(t, ded, matcher::matcher_of(ded), None, context_lines) matches Ok(
                back,
            ) && back.text == Some(text)
        }),
{
    let m = MatcherView::Literal { pattern: pat };
    let indent = Action::Indent { amount, use_tabs };
    let dedent = Action::Dedent { amount, use_tabs };
    let ind = transform::indent_text(amount as nat, use_tabs);
    let ls = lines::lines(text);
    let n = ls.len() as int;
    let sep = engine::separator(text);
    let terminated = edits::ends_with_newline(text);
    let want = indented_lines(ls, pat, ind);
    let es = engine::pass_edits(indent, m, None, ls);
    // Indenting changed some line.
    lemma_changes_of_edits(ls, es, sep, context_lines, n);
    let k = choose|k: int| 0 <= k < n && !(#[trigger] es[k] is Keep);
    assert(es[k] == engine::edit_at(indent, m, None, ls, k));
    assert(amount > 0) by {
        if amount == 0 {
            assert(ind + ls[k] =~= ls[k]);
        }
    }
    assert(matcher::contains(ls[k], pat));
    assert forall|i: int| 0 <= i < n implies (#[trigger] es[i] == (LineEdit::Put { line: want[i] })
        && matcher::contains(ls[i], pat)) || (es[i] is Keep && want[i] == ls[i]
        && !matcher::contains(ls[i], pat)) by {
        assert(es[i] == engine::edit_at(indent, m, None, ls, i));
        assert((ind + ls[i]).len() != ls[i].len());
    }
    lemma_pass_puts(text, indent, m, want, k, context_lines);
    let t = edits::rejoin(want, sep, terminated);
    // The indented text reads back as the indented lines.
    assert forall|i: int| 0 <= i < n implies !(#[trigger] want[i]).contains('\n') && want[i].len()
        >= ls[i].len() && (want[i].len() > 0 && want[i].last() == '\r' ==> ls[i].len() > 0
        && ls[i].last() == '\r') by {
        law_lines_hold_no_newline(text, i);
        let w = want[i];
        if matcher::contains(ls[i], pat) {
            assert(w == ind + ls[i]);
            assert forall|j: int| 0 <= j < w.len() implies w[j] != '\n' by {
                if j >= ind.len() {
                    assert(ls[i].contains(ls[i][j - ind.len()]));
                }
            }
        }
    }
    reveal_strlit("\n");
    reveal_strlit("\r\n");
    if !terminated {
        lines::lemma_lines_len(text, 0);
        assert(text.skip(0) =~= text);
        assert(text.len() > 0);
        lemma_unterminated_line(text);
        assert(want[n - 1].len() > 0);
    }
    assert(readable(want, sep, terminated)) by {
        if sep == "\n"@ {
            assert("\n"@.len() != "\r\n"@.len());
            assert(engine::crlf_count(text, text.len() as int) == 0);
            assert forall|i: int| 0 <= i < n && (terminated || i < n - 1) implies (
            #[trigger] want[i]).len() == 0 || want[i].last() != '\r' by {
                lemma_lf_lines(text, i);
            }
        }
    }
    law_lines_of_rejoined(want, sep, terminated);
    assert(lines::lines(t) == want);
    // It has the same separator and the same ending.
    lemma_put_lines(ls, es, want, n);
    assert(want.take(n) =~= want);
    assert(engine::separator(t) == sep) by {
        if engine::mostly_crlf(text) {
            law_crlf_majority_kept(text, es, context_lines);
        } else {
            assert forall|j: int| 1 <= j < t.len() && t[j] == '\n' implies #[trigger] t[j - 1]
                != '\r' by {
                lemma_lf_joined(want, terminated, j);
            }
            lemma_no_crlf(t, t.len() as int);
        }
    }
    law_final_newline_kept(text, es, context_lines);
    assert(edits::ends_with_newline(t) == terminated) by {
        if !terminated {
            assert(want.last() == want[n - 1]);
            assert(want[n - 1].contains(want[n - 1].last()));
        }
    }
    // Dedenting puts the lines back.
    let back = engine::pass_edits(dedent, m, None, want);
    assert forall|i: int| 0 <= i < n implies #[trigger] back[i] == (LineEdit::Put { line: ls[i] })
        && matcher::contains(ls[i], pat) || back[i] is Keep && ls[i] == want[i] by {
        assert(back[i] == engine::edit_at(dedent, m, None, want, i));
        assert(es[i] is Put || es[i] is Keep);
        if matcher::contains(ls[i], pat) {
            assert(want[i] == ind + ls[i]);
            lemma_contains_indented(ls[i], ind, pat);
            law_dedent_undoes_indent(ls[i], amount as nat, use_tabs);
            assert((ind + ls[i]).len() != ls[i].len());
        }
    }
    assert(back[k] is Put) by {
        assert((ind + ls[k]).len() != ls[k].len());
    }
    lemma_pass_puts(t, dedent, m, ls, k, context_lines);
    law_rejoin_restores(text);
}

} // verus!
