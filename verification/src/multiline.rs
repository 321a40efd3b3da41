//! Whole-buffer replace and delete.
//!
//! The buffer is never split and rejoined: replacements are spliced into the
//! original text, so line separators outside the matches and the final newline
//! stay as they are.
use vstd::prelude::*;
use vstd::utf8::*;

use crate::diff;
use crate::diff::{Change, ChangeContext, ChangeView, ContextView};
use crate::edits;
use crate::edits::{copy_lines, unchanged, EngineOutput, OutputView};
use crate::engine;
use crate::engine::replace_budget;
use crate::lines;
use crate::lines::{count_newlines, split_lines};
use crate::matcher::{Matcher, MatcherView};
use crate::offsets;
use crate::offsets::{slice_str, text_len};
use crate::operation::{Action, Op};
use crate::spans;
use crate::spans::{MatchSpan, Span};
use crate::strings;
use crate::strings::owned;
use crate::undo::UndoEntry;

verus! {

/// The spans that a budget of occurrences leaves.
pub open spec fn within_budget(sp: Seq<Span>, budget: Option<int>) -> Seq<Span> {
    match budget {
        Some(n) => if n < sp.len() {
            sp.take(n)
        } else {
            sp
        },
        None => sp,
    }
}

/// What a whole-buffer operation puts in place of a match.
pub open spec fn replacement_of(action: Action) -> Seq<char> {
    match action {
        Action::Replace { replace, .. } => replace,
        _ => ""@,
    }
}

/// Up to `n` lines before line `first` and behind line `last`.
pub open spec fn span_context(ls: Seq<Seq<char>>, first: int, last: int, n: int) -> ContextView {
    let from = last + 1;
    ContextView {
        before: ls.subrange(
            if first < n {
                0
            } else {
                first - n
            },
            first,
        ),
        after: if from >= ls.len() {
            Seq::empty()
        } else {
            ls.subrange(
                from,
                if from + n > ls.len() {
                    ls.len() as int
                } else {
                    from + n
                },
            )
        },
    }
}

/// The record of one replaced span: the line where it starts, its raw text,
/// and what took its place.
pub open spec fn span_change(text: Seq<char>, span: Span, is_delete: bool, context_lines: int) -> ChangeView {
    let matched = text.subrange(span.start, span.end);
    let first = lines::newline_count(text.take(span.start)) as int;
    let last = first + lines::newline_count(matched);
    ChangeView {
        line: first + 1,
        before: matched,
        after: if is_delete {
            None
        } else {
            Some(span.replacement)
        },
        context: if context_lines <= 0 {
            None
        } else {
            Some(span_context(lines::lines(text), first, last, context_lines))
        },
    }
}

/// The records of the first `n` spans.
pub open spec fn span_changes(
    text: Seq<char>,
    sp: Seq<Span>,
    is_delete: bool,
    context_lines: int,
    n: int,
) -> Seq<ChangeView> {
    Seq::new(n as nat, |k: int| span_change(text, sp[k], is_delete, context_lines))
}

/// The output of a whole-buffer operation.
pub open spec fn multiline_output(
    text: Seq<char>,
    action: Action,
    m: MatcherView,
    context_lines: int,
) -> OutputView {
    let sp = within_budget(
        m.spans(text, replacement_of(action)),
        engine::replace_budget_of(action),
    );
    if sp.len() == 0 {
        edits::no_change()
    } else {
        OutputView {
            text: Some(spans::splice(text, sp)),
            changes: span_changes(
                text,
                sp,
                !(action is Replace),
                context_lines,
                sp.len() as int,
            ),
            undo: Some(text),
        }
    }
}

/// Cuts a list of matches to what the budget leaves.
pub(crate) fn truncate_spans(v: Vec<MatchSpan>, budget: Option<usize>, text: Ghost<Seq<char>>, sp: Ghost<Seq<Span>>) -> (r:
    Vec<MatchSpan>)
    requires
        spans::spans_match(text@, v@, sp@),
        spans::spans_ok(text@.len(), sp@),
    ensures
        spans::spans_match(text@, r@, within_budget(sp@, engine::budget_view(budget))),
        spans::spans_ok(text@.len(), within_budget(sp@, engine::budget_view(budget))),
{
    let mut v = v;
    match budget {
        Some(limit) => {
            if limit < v.len() {
                v.truncate(limit);
            }
        },
        None => {},
    }
    v
}

/// Lines around a span that covers the lines `first` to `last`.
fn build_span_context(ls: &Vec<&str>, first: usize, last: usize, context_lines: usize) -> (r:
    ChangeContext)
    requires
        first <= ls@.len(),
        first <= last,
        last < usize::MAX,
    ensures
        r@ == span_context(
            strings::strs_view(ls@),
            first as int,
            last as int,
            context_lines as int,
        ),
{
    let start: usize = if first < context_lines {
        0
    } else {
        first - context_lines
    };
    let before = copy_lines(ls, start, first);
    let from: usize = last + 1;
    if from >= ls.len() {
        let after: Vec<String> = Vec::new();
        proof {
            assert(strings::strings_view(after@) =~= Seq::<Seq<char>>::empty());
        }
        return ChangeContext { before, after };
    }
    let to: usize = if context_lines > ls.len() - from {
        ls.len()
    } else {
        from + context_lines
    };
    ChangeContext { before, after: copy_lines(ls, from, to) }
}

/// Newlines before a position are lines of the text.
proof fn lemma_newlines_before(s: Seq<char>, i: int)
    requires
        0 <= i <= s.len(),
    ensures
        lines::newline_count(s.take(i)) <= lines::lines(s).len(),
{
    lines::lemma_lines_len(s, 0);
    assert(s.skip(0) =~= s);
    assert(s =~= s.take(i) + s.skip(i));
    lines::lemma_newline_count_append(s.take(i), s.skip(i));
}

/// Runs a whole-buffer replace or delete.
pub fn apply_multiline(text: &str, op: &Op, m: &Matcher, context_lines: usize) -> (r: EngineOutput)
    ensures
        r@ == multiline_output(text@, op@.action, m@, context_lines as int),
{
    let ghost s = text@;
    let total = text_len(text);
    let (replacement, is_delete) = match op {
        Op::Replace { replace, .. } => (replace.as_str(), false),
        _ => ("", true),
    };
    let ghost sp0 = m@.spans(s, replacement@);
    let found = m.find_replacements(text, replacement);
    let ghost sp = within_budget(sp0, engine::replace_budget_of(op@.action));
    let found = truncate_spans(found, replace_budget(op), Ghost(s), Ghost(sp0));
    if found.len() == 0 {
        return unchanged();
    }
    let all = split_lines(text);
    let ghost ls = lines::lines(s);
    let mut out = String::new();
    let mut changes: Vec<Change> = Vec::new();
    let mut last_end: usize = 0;
    let mut line_idx: usize = 0;
    let mut i: usize = 0;
    proof {
        offsets::lemma_byte_pos_ends(s);
        offsets::lemma_encode_len(s);
        lines::lemma_newline_count_le(s);
        assert(s.take(0) =~= Seq::<char>::empty());
        assert(diff::changes_view(changes@) =~= span_changes(
            s,
            sp,
            is_delete,
            context_lines as int,
            0,
        ));
    }
    while i < found.len()
        invariant
            s == text@,
            total == encode_utf8(s).len(),
            total <= isize::MAX,
            strings::strs_view(all@) == ls,
            ls == lines::lines(s),
            spans::spans_ok(s.len(), sp),
            spans::spans_match(s, found@, sp),
            i <= found@.len(),
            0 <= spans::resume_at(sp, i as int) <= s.len(),
            last_end == offsets::byte_pos(s, spans::resume_at(sp, i as int)),
            line_idx == lines::newline_count(s.take(spans::resume_at(sp, i as int))),
            out@ == spans::spliced_prefix(s, sp, i as int),
            diff::changes_view(changes@) == span_changes(
                s,
                sp,
                is_delete,
                context_lines as int,
                i as int,
            ),
        decreases found@.len() - i,
    {
        let span = &found[i];
        let ghost from = spans::resume_at(sp, i as int);
        let ghost a = sp[i as int].start;
        let ghost b = sp[i as int].end;
        proof {
            assert(from <= a <= b <= s.len());
            offsets::lemma_slice(s, b, s.len() as int);
            offsets::lemma_byte_pos_ends(s);
        }
        let between = slice_str(text, last_end, span.start, Ghost(from), Ghost(a));
        out.append(between);
        let matched = slice_str(text, span.start, span.end, Ghost(a), Ghost(b));
        let gap = count_newlines(text, last_end, span.start, Ghost(from), Ghost(a));
        let inside = count_newlines(text, span.start, span.end, Ghost(a), Ghost(b));
        proof {
            assert(s.take(a) =~= s.take(from) + s.subrange(from, a));
            lines::lemma_newline_count_append(s.take(from), s.subrange(from, a));
            assert(s.take(b) =~= s.take(a) + s.subrange(a, b));
            lines::lemma_newline_count_append(s.take(a), s.subrange(a, b));
            lemma_newlines_before(s, a);
            lines::lemma_newline_count_le(s.take(b));
            offsets::lemma_encode_len(s);
            assert(ls.len() == all@.len());
        }
        let start_line: usize = line_idx + gap;
        let end_line: usize = start_line + inside;
        let context = if context_lines == 0 {
            None
        } else {
            Some(build_span_context(&all, start_line, end_line, context_lines))
        };
        let ghost changes_before = changes@;
        changes.push(
            Change {
                line: start_line + 1,
                before: owned(matched),
                after: if is_delete {
                    None
                } else {
                    Some(span.replacement.clone())
                },
                context,
            },
        );
        out.append(span.replacement.as_str());
        last_end = span.end;
        line_idx = end_line;
        i += 1;
        proof {
            assert(diff::changes_view(changes@) =~= diff::changes_view(changes_before).push(
                changes@.last()@,
            ));
            assert(changes@.last()@ =~= span_change(
                s,
                sp[i - 1],
                is_delete,
                context_lines as int,
            ));
            assert(diff::changes_view(changes@) =~= span_changes(
                s,
                sp,
                is_delete,
                context_lines as int,
                i as int,
            ));
        }
    }
    let ghost from = spans::resume_at(sp, sp.len() as int);
    proof {
        offsets::lemma_byte_pos_ends(s);
        assert(s.subrange(from, s.len() as int) =~= s.skip(from));
    }
    let tail = slice_str(text, last_end, total, Ghost(from), Ghost(s.len() as int));
    out.append(tail);
    EngineOutput {
        text: Some(out),
        changes,
        undo: Some(UndoEntry { original_text: owned(text) }),
    }
}

} // verus!
