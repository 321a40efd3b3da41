//! Whole-buffer splicing for literal replaces.
//!
//! Where no match can touch a line terminator, the matches of the whole buffer
//! are the matches of its lines. They are then found once and spliced in, and
//! only the affected lines are looked at for the record of changes.
use vstd::prelude::*;
use vstd::utf8::*;

use crate::diff;
use crate::diff::{Change, ChangeContext};
use crate::edits;
use crate::edits::{unchanged, EngineOutput, LineEdit, OutputView};
use crate::engine;
use crate::engine::replace_budget;
use crate::lines;
use crate::lines::{count_newlines, find_content_end, find_line_start, find_newline};
use crate::matcher::{Matcher, MatcherView};
use crate::multiline;
use crate::multiline::truncate_spans;
use crate::offsets;
use crate::offsets::{slice_str, text_len};
use crate::operation::{Action, Op, OpView, RangeSpec, RangeView, ReplaceCount};
use crate::spans;
use crate::spans::{MatchSpan, Span};
use crate::strings;
use crate::strings::owned;
use crate::undo::UndoEntry;

verus! {

// ---------------------------------------------------------------------------
// When a text is spliced
// ---------------------------------------------------------------------------

/// Whether an operation on a text is a candidate for splicing: a literal
/// replace without a range and without a limit per line, whose pattern is not
/// empty and holds no line terminator, on a text with uniform line endings.
pub open spec fn splice_candidate(text: Seq<char>, op: OpView, range: Option<RangeView>) -> bool {
    &&& range is None
    &&& !(engine::crlf_count(text, text.len() as int) > 0 && engine::bare_lf_count(
        text,
        text.len() as int,
    ) > 0)
    &&& !op.regex
    &&& op.find.len() > 0
    &&& !op.find.contains('\n')
    &&& !op.find.contains('\r')
    &&& op.action is Replace
    &&& op.action->Replace_count != ReplaceCount::FirstPerLine
}

/// Whether every span covers something, and nothing of a line terminator.
pub open spec fn spans_in_lines(text: Seq<char>, sp: Seq<Span>) -> bool {
    forall|k: int| #![trigger sp[k]]
        0 <= k < sp.len() ==> sp[k].start < sp[k].end && !text.subrange(
            sp[k].start,
            sp[k].end,
        ).contains('\n') && !text.subrange(sp[k].start, sp[k].end).contains('\r')
}

/// The occurrences that a replace touches in a whole text.
pub open spec fn splice_spans_of(text: Seq<char>, action: Action, m: MatcherView) -> Seq<Span> {
    multiline::within_budget(
        m.spans(text, multiline::replacement_of(action)),
        engine::replace_budget_of(action),
    )
}

/// Whether an operation on a text is spliced.
pub open spec fn is_spliced(text: Seq<char>, op: OpView, m: MatcherView, range: Option<RangeView>) -> bool {
    splice_candidate(text, op, range) && spans_in_lines(text, splice_spans_of(text, op.action, m))
}

// ---------------------------------------------------------------------------
// What splicing records
// ---------------------------------------------------------------------------

/// The first span from number `k` on that starts at or behind `p`.
pub open spec fn first_from(sp: Seq<Span>, p: int, k: int) -> int
    decreases sp.len() - k,
{
    if k < 0 || k >= sp.len() {
        sp.len() as int
    } else if sp[k].start >= p {
        k
    } else {
        first_from(sp, p, k + 1)
    }
}

/// The spans that start in `b..e`.
pub open spec fn spans_between(sp: Seq<Span>, b: int, e: int) -> Seq<Span> {
    sp.subrange(first_from(sp, b, 0), first_from(sp, e, first_from(sp, b, 0)))
}

/// Spans counted from position `d` of the text.
pub open spec fn shifted(sp: Seq<Span>, d: int) -> Seq<Span> {
    sp.map_values(|s: Span| Span { start: s.start - d, end: s.end - d, replacement: s.replacement })
}

/// The spans on line `i`, counted from the start of the line.
pub open spec fn spans_on_line(text: Seq<char>, sp: Seq<Span>, i: int) -> Seq<Span> {
    let b = lines::nth_begin(text, 0, i);
    shifted(spans_between(sp, b, lines::first_newline(text, b)), b)
}

/// What splicing makes of each line.
pub open spec fn spliced_edits(text: Seq<char>, sp: Seq<Span>) -> Seq<LineEdit> {
    let ls = lines::lines(text);
    Seq::new(
        ls.len(),
        |i: int|
            {
                let on_line = spans_on_line(text, sp, i);
                if on_line.len() == 0 {
                    LineEdit::Keep
                } else {
                    LineEdit::Put { line: spans::splice(ls[i], on_line) }
                }
            },
    )
}

/// The output of splicing spans into a text.
pub open spec fn spliced_output(text: Seq<char>, sp: Seq<Span>, context_lines: int) -> OutputView {
    if sp.len() == 0 {
        edits::no_change()
    } else {
        OutputView {
            text: Some(spans::splice(text, sp)),
            changes: edits::edit_changes(
                lines::lines(text),
                spliced_edits(text, sp),
                engine::separator(text),
                context_lines,
                lines::lines(text).len() as int,
            ),
            undo: Some(text),
        }
    }
}

// ---------------------------------------------------------------------------
// Line starts
// ---------------------------------------------------------------------------

/// Whether `p` is where line `i` starts.
pub open spec fn line_begins(s: Seq<char>, p: int, i: int) -> bool {
    &&& 0 <= i
    &&& 0 <= p <= s.len()
    &&& p == lines::nth_begin(s, 0, i)
    &&& lines::newline_count(s.take(p)) == i
    &&& (p > 0 ==> s[p - 1] == '\n')
}

pub proof fn lemma_first_begins(s: Seq<char>)
    ensures
        line_begins(s, 0, 0),
{
    assert(s.take(0) =~= Seq::<char>::empty());
}

/// The next line starts behind the terminator.
pub proof fn lemma_next_begins(s: Seq<char>, p: int, i: int)
    requires
        line_begins(s, p, i),
        lines::first_newline(s, p) < s.len(),
    ensures
        line_begins(s, lines::first_newline(s, p) + 1, i + 1),
{
    lines::lemma_first_newline(s, p);
    lines::lemma_newline_count_line(s, p);
}

/// The line of a position starts where `line_start` says.
pub proof fn lemma_line_of(s: Seq<char>, g: int)
    requires
        0 <= g <= s.len(),
    ensures
        line_begins(s, lines::line_start(s, g), lines::newline_count(s.take(g)) as int),
    decreases g,
{
    if g == 0 {
        lemma_first_begins(s);
        assert(s.take(0) =~= Seq::<char>::empty());
    } else {
        lemma_line_of(s, g - 1);
        assert(s.take(g).drop_last() =~= s.take(g - 1));
        if s[g - 1] == '\n' {
            let b = lines::line_start(s, g - 1);
            lines::lemma_line_start(s, g - 1);
            lines::lemma_first_newline_is(s, b, g - 1);
            lemma_next_begins(s, b, lines::newline_count(s.take(g - 1)) as int);
        }
    }
}

/// What stands at a line start: that line, or nothing at the end of the text.
pub proof fn lemma_line_at(s: Seq<char>, p: int, i: int)
    requires
        line_begins(s, p, i),
    ensures
        p < s.len() ==> i < lines::lines(s).len() && lines::lines(s)[i] == s.subrange(
            p,
            lines::content_end(s, p, lines::first_newline(s, p)),
        ),
        p == s.len() ==> i == lines::lines(s).len(),
{
    lines::lemma_lines_len(s, 0);
    assert(s.skip(0) =~= s);
    assert(s =~= s.take(p) + s.skip(p));
    lines::lemma_newline_count_append(s.take(p), s.skip(p));
    if p < s.len() {
        if lines::newline_count(s.skip(p)) == 0 {
            if s.last() == '\n' {
                assert(s.skip(p).last() == '\n');
            }
        }
        lines::lemma_lines_from_index(s, 0, i);
    } else {
        assert(s.skip(p) =~= Seq::<char>::empty());
    }
}

/// Line starts come in the order of their lines.
pub proof fn lemma_begins_order(s: Seq<char>, p: int, i: int, q: int, j: int)
    requires
        line_begins(s, p, i),
        line_begins(s, q, j),
    ensures
        i < j <==> p < q,
        i == j <==> p == q,
        i < j ==> lines::first_newline(s, p) < q,
{
    if p <= q {
        assert(s.take(q) =~= s.take(p) + s.subrange(p, q));
        lines::lemma_newline_count_append(s.take(p), s.subrange(p, q));
        if p < q {
            assert(s.subrange(p, q).last() == '\n');
            lines::lemma_first_newline(s, p);
            if lines::first_newline(s, p) >= q {
                assert(s[q - 1] != '\n');
            }
        }
    } else {
        assert(s.take(p) =~= s.take(q) + s.subrange(q, p));
        lines::lemma_newline_count_append(s.take(q), s.subrange(q, p));
        assert(s.subrange(q, p).last() == '\n');
    }
}

// ---------------------------------------------------------------------------
// Spans on lines
// ---------------------------------------------------------------------------

pub proof fn lemma_first_from(sp: Seq<Span>, p: int, k: int)
    requires
        0 <= k <= sp.len(),
    ensures
        k <= first_from(sp, p, k) <= sp.len(),
        forall|l: int| k <= l < first_from(sp, p, k) ==> sp[l].start < p,
        first_from(sp, p, k) < sp.len() ==> sp[first_from(sp, p, k)].start >= p,
    decreases sp.len() - k,
{
    if k < sp.len() && sp[k].start < p {
        lemma_first_from(sp, p, k + 1);
    }
}

pub proof fn lemma_first_from_is(sp: Seq<Span>, p: int, k: int, f: int)
    requires
        0 <= k <= f <= sp.len(),
        forall|l: int| k <= l < f ==> sp[l].start < p,
        f < sp.len() ==> sp[f].start >= p,
    ensures
        first_from(sp, p, k) == f,
    decreases f - k,
{
    if k < f {
        lemma_first_from_is(sp, p, k + 1, f);
    }
}

/// A line without spans is kept.
proof fn lemma_no_spans_kept(s: Seq<char>, sp: Seq<Span>, p: int, i: int, f: int)
    requires
        spans::spans_ok(s.len(), sp),
        line_begins(s, p, i),
        p < s.len(),
        0 <= f <= sp.len(),
        first_from(sp, p, 0) == f,
        f < sp.len() ==> sp[f].start >= lines::first_newline(s, p),
    ensures
        spliced_edits(s, sp)[i] is Keep,
{
    lemma_line_at(s, p, i);
    let e = lines::first_newline(s, p);
    lemma_first_from_is(sp, e, f, f);
    assert(spans_between(sp, p, e) =~= Seq::<Span>::empty());
    assert(spans_on_line(s, sp, i) =~= Seq::<Span>::empty());
}

/// Kept lines add no changes.
proof fn lemma_changes_skip(s: Seq<char>, sp: Seq<Span>, n: int, i: int, j: int, p: int, f: int)
    requires
        spans::spans_ok(s.len(), sp),
        0 <= i <= j <= lines::lines(s).len(),
        line_begins(s, p, i),
        0 <= f < sp.len(),
        first_from(sp, p, 0) == f,
        line_begins(s, lines::line_start(s, sp[f].start), j),
    ensures
        edits::edit_changes(
            lines::lines(s),
            spliced_edits(s, sp),
            engine::separator(s),
            n,
            j,
        ) == edits::edit_changes(
            lines::lines(s),
            spliced_edits(s, sp),
            engine::separator(s),
            n,
            i,
        ),
    decreases j - i,
{
    if i < j {
        let q = lines::line_start(s, sp[f].start);
        lines::lemma_line_start(s, sp[f].start);
        lemma_begins_order(s, p, i, q, j);
        let e = lines::first_newline(s, p);
        lines::lemma_first_newline(s, p);
        lemma_next_begins(s, p, i);
        lemma_no_spans_kept(s, sp, p, i, f);
        lemma_first_from_is_later(sp, p, e + 1, f);
        lemma_changes_skip(s, sp, n, i + 1, j, e + 1, f);
        lemma_changes_one(s, sp, n, i, j);
    }
}

/// If the first span at or behind `p` starts behind `q` too, it is the first there.
proof fn lemma_first_from_is_later(sp: Seq<Span>, p: int, q: int, f: int)
    requires
        0 <= f < sp.len(),
        first_from(sp, p, 0) == f,
        p <= q <= sp[f].start,
    ensures
        first_from(sp, q, 0) == f,
{
    lemma_first_from(sp, p, 0);
    lemma_first_from_is(sp, q, 0, f);
}

/// One kept line adds no change.
proof fn lemma_changes_one(s: Seq<char>, sp: Seq<Span>, n: int, i: int, j: int)
    requires
        0 <= i < j,
        spliced_edits(s, sp)[i] is Keep,
        edits::edit_changes(
            lines::lines(s),
            spliced_edits(s, sp),
            engine::separator(s),
            n,
            j,
        ) == edits::edit_changes(
            lines::lines(s),
            spliced_edits(s, sp),
            engine::separator(s),
            n,
            i + 1,
        ),
    ensures
        edits::edit_changes(
            lines::lines(s),
            spliced_edits(s, sp),
            engine::separator(s),
            n,
            j,
        ) == edits::edit_changes(
            lines::lines(s),
            spliced_edits(s, sp),
            engine::separator(s),
            n,
            i,
        ),
{
}

/// Lines behind the last span are kept.
proof fn lemma_changes_tail(s: Seq<char>, sp: Seq<Span>, n: int, i: int, p: int)
    requires
        spans::spans_ok(s.len(), sp),
        line_begins(s, p, i),
        forall|k: int| #![trigger sp[k]] 0 <= k < sp.len() ==> sp[k].start < p,
    ensures
        i <= lines::lines(s).len(),
        edits::edit_changes(
            lines::lines(s),
            spliced_edits(s, sp),
            engine::separator(s),
            n,
            lines::lines(s).len() as int,
        ) == edits::edit_changes(
            lines::lines(s),
            spliced_edits(s, sp),
            engine::separator(s),
            n,
            i,
        ),
    decreases s.len() - p,
{
    lemma_line_at(s, p, i);
    if p < s.len() {
        lines::lemma_first_newline(s, p);
        let e = lines::first_newline(s, p);
        lemma_first_from_is(sp, p, 0, sp.len() as int);
        lemma_no_spans_kept(s, sp, p, i, sp.len() as int);
        if e < s.len() {
            lemma_next_begins(s, p, i);
            lemma_changes_tail(s, sp, n, i + 1, e + 1);
            lemma_line_at(s, e + 1, i + 1);
            lemma_changes_one(s, sp, n, i, lines::lines(s).len() as int);
        } else {
            lines::lemma_lines_len(s, 0);
            lemma_last_line(s, p, i);
            lemma_changes_one(s, sp, n, i, lines::lines(s).len() as int);
        }
    }
}

/// An unterminated line is the last.
pub proof fn lemma_last_line(s: Seq<char>, p: int, i: int)
    requires
        line_begins(s, p, i),
        p < s.len(),
        lines::first_newline(s, p) == s.len(),
    ensures
        i + 1 == lines::lines(s).len(),
{
    lines::lemma_first_newline(s, p);
    lines::lemma_lines_len(s, 0);
    assert(s.skip(0) =~= s);
    assert(s =~= s.take(p) + s.skip(p));
    lines::lemma_newline_count_append(s.take(p), s.skip(p));
    lines::lemma_newline_count_none(s.skip(p));
}

// ---------------------------------------------------------------------------
// Execution
// ---------------------------------------------------------------------------

/// Whether a text holds a given ASCII character.
pub fn has_ascii(text: &str, byte: u8) -> (b: bool)
    requires
        byte < 0x80,
    ensures
        b == text@.contains(byte as char),
{
    let bytes = text.as_bytes();
    let ghost s = text@;
    match memchr::memchr(byte, bytes) {
        Some(p) => {
            proof {
                let k = offsets::lemma_ascii_byte(s, p as int);
                assert(s[k] == byte as char);
            }
            true
        },
        None => {
            proof {
                if s.contains(byte as char) {
                    let k = choose|k: int| 0 <= k < s.len() && s[k] == byte as char;
                    assert(s[k] == byte as char);
                    offsets::lemma_ascii_at(s, k);
                }
            }
            false
        },
    }
}

/// Whether an operation on a text with the given line-ending counts is a
/// candidate for splicing.
pub(crate) fn splice_eligible(op: &Op, range: &Option<RangeSpec>, crlf: usize, bare_lf: usize, text: Ghost<Seq<char>>) -> (b:
    bool)
    requires
        crlf == engine::crlf_count(text@, text@.len() as int),
        bare_lf == engine::bare_lf_count(text@, text@.len() as int),
    ensures
        b == splice_candidate(text@, op@, crate::operation::range_view(*range)),
{
    if range.is_some() || (crlf > 0 && bare_lf > 0) {
        return false;
    }
    match op {
        Op::Replace { find, regex, count, .. } => {
            let per_line = match *count {
                ReplaceCount::FirstPerLine => true,
                _ => false,
            };
            proof {
                assert((10u8 as char) == '\n');
                assert((13u8 as char) == '\r');
            }
            !*regex && !per_line && !find.as_str().is_empty() && !has_ascii(find.as_str(), 10u8)
                && !has_ascii(find.as_str(), 13u8)
        },
        _ => false,
    }
}

/// Whether every span covers something, and nothing of a line terminator.
fn check_spans(text: &str, found: &Vec<MatchSpan>, sp: Ghost<Seq<Span>>) -> (b: bool)
    requires
        spans::spans_match(text@, found@, sp@),
        spans::spans_ok(text@.len(), sp@),
    ensures
        b == spans_in_lines(text@, sp@),
{
    let mut i: usize = 0;
    while i < found.len()
        invariant
            spans::spans_match(text@, found@, sp@),
            spans::spans_ok(text@.len(), sp@),
            i <= found@.len(),
            forall|k: int| #![trigger sp@[k]]
                0 <= k < i ==> sp@[k].start < sp@[k].end && !text@.subrange(
                    sp@[k].start,
                    sp@[k].end,
                ).contains('\n') && !text@.subrange(sp@[k].start, sp@[k].end).contains('\r'),
        decreases found@.len() - i,
    {
        let f = &found[i];
        let ghost s = sp@[i as int];
        proof {
            offsets::lemma_byte_pos_injective(text@, s.start, s.end);
            assert((10u8 as char) == '\n');
            assert((13u8 as char) == '\r');
        }
        if f.start >= f.end {
            return false;
        }
        let matched = slice_str(text, f.start, f.end, Ghost(s.start), Ghost(s.end));
        if has_ascii(matched, 10u8) || has_ascii(matched, 13u8) {
            return false;
        }
        i += 1;
    }
    true
}

/// Up to `count` lines from the line start `from` on.
fn take_lines(text: &str, from: usize, count: usize, p: Ghost<int>, i: Ghost<int>) -> (r: Vec<String>)
    requires
        line_begins(text@, p@, i@),
        from == offsets::byte_pos(text@, p@),
    ensures
        i@ <= lines::lines(text@).len(),
        strings::strings_view(r@) == lines::lines(text@).subrange(
            i@,
            if i@ + count > lines::lines(text@).len() {
                lines::lines(text@).len() as int
            } else {
                i@ + count
            },
        ),
{
    let ghost s = text@;
    let ghost ls = lines::lines(s);
    let total = text_len(text);
    let mut out: Vec<String> = Vec::new();
    let mut n: usize = 0;
    let mut pos: usize = from;
    let ghost mut q = p@;
    let mut open = true;
    proof {
        offsets::lemma_byte_pos_ends(s);
        offsets::lemma_slice(s, p@, s.len() as int);
        lemma_line_at(s, p@, i@);
        assert(strings::strings_view(out@) =~= ls.subrange(i@, i@));
    }
    while open && n < count && pos < total
        invariant
            s == text@,
            ls == lines::lines(s),
            total == encode_utf8(s).len(),
            0 <= i@,
            n <= count,
            i@ + n <= ls.len(),
            open ==> line_begins(s, q, i@ + n) && pos == offsets::byte_pos(s, q),
            !open ==> i@ + n == ls.len(),
            strings::strings_view(out@) == ls.subrange(i@, i@ + n),
        decreases count - n,
    {
        proof {
            offsets::lemma_byte_pos_ends(s);
            offsets::lemma_byte_pos_injective(s, q, s.len() as int);
            lines::lemma_first_newline(s, q);
            lemma_line_at(s, q, i@ + n);
        }
        let ghost e = lines::first_newline(s, q);
        let stop = find_newline(text, pos, Ghost(q));
        let cut = find_content_end(text, pos, stop, Ghost(q), Ghost(e));
        let line = slice_str(text, pos, cut, Ghost(q), Ghost(lines::content_end(s, q, e)));
        let ghost before = out@;
        out.push(owned(line));
        proof {
            assert(strings::strings_view(out@) =~= strings::strings_view(before).push(line@));
            assert(ls.subrange(i@, i@ + n).push(ls[i@ + n]) =~= ls.subrange(i@, i@ + n + 1));
            offsets::lemma_byte_pos_injective(s, e, s.len() as int);
        }
        if stop < total {
            proof {
                offsets::lemma_ascii_at(s, e);
                lemma_next_begins(s, q, i@ + n);
                lemma_line_at(s, e + 1, i@ + n + 1);
                q = e + 1;
            }
            pos = stop + 1;
        } else {
            open = false;
            proof {
                lemma_last_line(s, q, i@ + n);
            }
        }
        n += 1;
    }
    proof {
        if open && n < count {
            offsets::lemma_byte_pos_ends(s);
            offsets::lemma_byte_pos_injective(s, q, s.len() as int);
            lemma_line_at(s, q, i@ + n);
        }
    }
    out
}

/// The lines around the line `line_begin..line_end`, found by scanning for the
/// newlines around it.
fn splice_line_context(
    text: &str,
    line_begin: usize,
    line_end: usize,
    context_lines: usize,
    b: Ghost<int>,
    i: Ghost<int>,
) -> (r: ChangeContext)
    requires
        line_begins(text@, b@, i@),
        b@ < text@.len(),
        line_begin == offsets::byte_pos(text@, b@),
        line_end == offsets::byte_pos(text@, lines::first_newline(text@, b@)),
    ensures
        r@ == edits::context_around(lines::lines(text@), i@, context_lines as int),
{
    let ghost s = text@;
    let ghost ls = lines::lines(s);
    let total = text_len(text);
    let mut back: usize = 0;
    let mut pos: usize = line_begin;
    let ghost mut p = b@;
    proof {
        lemma_line_at(s, b@, i@);
        offsets::lemma_byte_pos_ends(s);
    }
    while back < context_lines && pos > 0
        invariant
            s == text@,
            0 <= back <= context_lines,
            back <= i@,
            line_begins(s, p, i@ - back),
            pos == offsets::byte_pos(s, p),
            p <= b@ < s.len(),
        decreases context_lines - back,
    {
        proof {
            offsets::lemma_byte_pos_ends(s);
            offsets::lemma_byte_pos_injective(s, 0, p);
            offsets::lemma_ascii_at(s, p - 1);
            lemma_line_of(s, p - 1);
            assert(s.take(p).drop_last() =~= s.take(p - 1));
            lines::lemma_line_start(s, p - 1);
        }
        pos = find_line_start(text, pos - 1, Ghost(p - 1));
        proof {
            p = lines::line_start(s, p - 1);
        }
        back += 1;
    }
    proof {
        offsets::lemma_byte_pos_ends(s);
        if back < context_lines {
            offsets::lemma_byte_pos_injective(s, 0, p);
            lemma_first_begins(s);
            lemma_begins_order(s, p, i@ - back, 0, 0);
        }
    }
    let before = take_lines(text, pos, back, Ghost(p), Ghost(i@ - back));
    let ghost e = lines::first_newline(s, b@);
    proof {
        lines::lemma_first_newline(s, b@);
        offsets::lemma_byte_pos_injective(s, e, s.len() as int);
    }
    let after = if line_end < total {
        proof {
            offsets::lemma_ascii_at(s, e);
            lemma_next_begins(s, b@, i@);
        }
        take_lines(text, line_end + 1, context_lines, Ghost(e + 1), Ghost(i@ + 1))
    } else {
        let none: Vec<String> = Vec::new();
        proof {
            lemma_last_line(s, b@, i@);
            assert(strings::strings_view(none@) =~= ls.subrange(i@ + 1, ls.len() as int));
        }
        none
    };
    ChangeContext { before, after }
}

/// Splices the matches of a replace into a text.
#[verifier::rlimit(60)]
fn apply_spliced(text: &str, found: &Vec<MatchSpan>, context_lines: usize, sp: Ghost<Seq<Span>>) -> (r:
    EngineOutput)
    requires
        spans::spans_match(text@, found@, sp@),
        spans::spans_ok(text@.len(), sp@),
        spans_in_lines(text@, sp@),
    ensures
        r@ == spliced_output(text@, sp@, context_lines as int),
{
    let ghost s = text@;
    let ghost ls = lines::lines(s);
    let ghost es = spliced_edits(s, sp@);
    let ghost sep = engine::separator(s);
    if found.len() == 0 {
        return unchanged();
    }
    let total = text_len(text);
    let mut out = String::new();
    let mut changes: Vec<Change> = Vec::new();
    let mut last_end: usize = 0;
    let mut line_num: usize = 1;
    let mut scan: usize = 0;
    let ghost mut scan_at: int = 0;
    // The next line to account for, and where it starts.
    let ghost mut next: int = 0;
    let ghost mut next_at: int = 0;
    let mut i: usize = 0;
    proof {
        offsets::lemma_byte_pos_ends(s);
        lemma_first_begins(s);
        assert(s.take(0) =~= Seq::<char>::empty());
        assert(diff::changes_view(changes@) =~= edits::edit_changes(
            ls,
            es,
            sep,
            context_lines as int,
            0,
        ));
        lemma_first_from_is(sp@, 0, 0, 0);
    }
    while i < found.len()
        invariant
            s == text@,
            ls == lines::lines(s),
            es == spliced_edits(s, sp@),
            sep == engine::separator(s),
            total == encode_utf8(s).len(),
            total <= isize::MAX,
            spans::spans_match(s, found@, sp@),
            spans::spans_ok(s.len(), sp@),
            spans_in_lines(s, sp@),
            i <= found@.len(),
            0 <= spans::resume_at(sp@, i as int) <= s.len(),
            last_end == offsets::byte_pos(s, spans::resume_at(sp@, i as int)),
            out@ == spans::spliced_prefix(s, sp@, i as int),
            0 <= scan_at <= s.len(),
            scan == offsets::byte_pos(s, scan_at),
            i < found@.len() ==> scan_at <= sp@[i as int].start,
            line_num == lines::newline_count(s.take(scan_at)) + 1,
            i < found@.len() ==> line_begins(s, next_at, next) && next_at <= sp@[i as int].start
                && first_from(sp@, next_at, 0) == i,
            i < found@.len() ==> diff::changes_view(changes@) == edits::edit_changes(
                ls,
                es,
                sep,
                context_lines as int,
                next,
            ),
            i == found@.len() ==> diff::changes_view(changes@) == edits::edit_changes(
                ls,
                es,
                sep,
                context_lines as int,
                ls.len() as int,
            ),
        decreases found@.len() - i,
    {
        let ghost k0 = i as int;
        let ghost g = sp@[k0].start;
        let group_first = found[i].start;
        let skipped = count_newlines(text, scan, group_first, Ghost(scan_at), Ghost(g));
        proof {
            assert(s.take(g) =~= s.take(scan_at) + s.subrange(scan_at, g));
            lines::lemma_newline_count_append(s.take(scan_at), s.subrange(scan_at, g));
            lines::lemma_newline_count_le(s.take(g));
            offsets::lemma_encode_len(s);
            scan_at = g;
        }
        line_num += skipped;
        scan = group_first;
        let line_begin = find_line_start(text, group_first, Ghost(g));
        let line_end = find_newline(text, group_first, Ghost(g));
        let ghost b = lines::line_start(s, g);
        let ghost li = lines::newline_count(s.take(g)) as int;
        let ghost e = lines::first_newline(s, b);
        proof {
            lines::lemma_line_start(s, g);
            lemma_line_of(s, g);
            lines::lemma_first_newline(s, g);
            lines::lemma_first_newline_is(s, b, lines::first_newline(s, g));
            assert(e == lines::first_newline(s, g));
            lemma_line_at(s, b, li);
            // The lines before this one have no spans.
            if next_at <= b {
                lemma_begins_order(s, next_at, next, b, li);
            } else {
                lemma_begins_order(s, b, li, next_at, next);
                assert(s[next_at - 1] != '\n');
            }
            lemma_changes_skip(s, sp@, context_lines as int, next, li, next_at, k0);
            lemma_first_from_is_later(sp@, next_at, b, k0);
            lemma_span_in_line(s, sp@, k0, b, e);
        }
        let content_end = find_content_end(text, line_begin, line_end, Ghost(b), Ghost(e));
        let ghost ce = lines::content_end(s, b, e);
        let before_line = slice_str(text, line_begin, content_end, Ghost(b), Ghost(ce));
        let ghost content = ls[li];
        let ghost k1 = first_from(sp@, e, k0);
        let ghost on_line = shifted(sp@.subrange(k0, k1), b);
        proof {
            lemma_first_from(sp@, e, k0);
            assert(on_line =~= spans_on_line(s, sp@, li));
            assert(before_line@ == content);
        }
        let mut after_line = String::new();
        let mut line_cursor: usize = line_begin;
        while i < found.len() && found[i].start < line_end
            invariant
                s == text@,
                spans::spans_match(s, found@, sp@),
                spans::spans_ok(s.len(), sp@),
                spans_in_lines(s, sp@),
                0 <= k0 <= i <= found@.len(),
                k1 == first_from(sp@, e, k0),
                k0 <= k1 <= sp@.len(),
                i <= k1,
                0 <= b <= g,
                k0 < sp@.len(),
                g == sp@[k0].start,
                b <= ce <= e <= s.len(),
                e == lines::first_newline(s, b),
                ce == lines::content_end(s, b, e),
                content == s.subrange(b, ce),
                on_line == shifted(sp@.subrange(k0, k1), b),
                line_end == offsets::byte_pos(s, e),
                0 <= spans::resume_at(sp@, i as int) <= s.len(),
                last_end == offsets::byte_pos(s, spans::resume_at(sp@, i as int)),
                out@ == spans::spliced_prefix(s, sp@, i as int),
                0 <= spans::resume_at(on_line, i - k0) <= ce - b,
                line_cursor == offsets::byte_pos(s, b + spans::resume_at(on_line, i - k0)),
                after_line@ == spans::spliced_prefix(content, on_line, i - k0),
            decreases found@.len() - i,
        {
            let span = &found[i];
            let ghost sk = sp@[i as int];
            let ghost from = spans::resume_at(sp@, i as int);
            let ghost cur = spans::resume_at(on_line, i - k0);
            proof {
                offsets::lemma_byte_pos_injective(s, sk.start, e);
                lemma_first_from(sp@, e, k0);
                assert(i < k1);
                if i > k0 {
                    assert(sp@[k0].end <= sk.start);
                }
                assert(g <= sk.start);
                lemma_span_in_line(s, sp@, i as int, b, e);
                assert(on_line[i - k0] == (Span {
                    start: sk.start - b,
                    end: sk.end - b,
                    replacement: sk.replacement,
                }));
                if i > k0 {
                    let pk = sp@[i - 1];
                    assert(on_line[i - 1 - k0].end == pk.end - b);
                    assert(pk.end <= sk.start);
                }
                assert(b + cur <= sk.start);
                assert(from <= sk.start);
            }
            let gap = slice_str(text, line_cursor, span.start, Ghost(b + cur), Ghost(sk.start));
            proof {
                assert(gap@ =~= content.subrange(cur, sk.start - b));
            }
            after_line.append(gap);
            after_line.append(span.replacement.as_str());
            let between = slice_str(text, last_end, span.start, Ghost(from), Ghost(sk.start));
            out.append(between);
            out.append(span.replacement.as_str());
            line_cursor = span.end;
            last_end = span.end;
            i += 1;
        }
        proof {
            lemma_first_from(sp@, e, k0);
            if i < k1 {
                offsets::lemma_byte_pos_injective(s, sp@[i as int].start, e);
                assert(found@[i as int].start == offsets::byte_pos(s, sp@[i as int].start));
            }
            assert(i == k1);
            assert(k1 > k0);
        }
        let ghost cur = spans::resume_at(on_line, on_line.len() as int);
        let tail = slice_str(text, line_cursor, content_end, Ghost(b + cur), Ghost(ce));
        proof {
            assert(on_line.len() == k1 - k0);
            assert(tail@ =~= content.skip(cur));
        }
        after_line.append(tail);
        proof {
            assert(after_line@ == spans::splice(content, on_line));
            assert(es[li] == (LineEdit::Put { line: after_line@ }));
            assert(diff::changes_view(changes@) == edits::edit_changes(
                ls,
                es,
                sep,
                context_lines as int,
                li,
            ));
        }
        let context = if context_lines == 0 || changes.len() >= edits::MAX_CONTEXTED_CHANGES {
            None
        } else {
            Some(
                splice_line_context(
                    text,
                    line_begin,
                    line_end,
                    context_lines,
                    Ghost(b),
                    Ghost(li),
                ),
            )
        };
        let ghost changes_before = changes@;
        changes.push(
            Change { line: line_num, before: owned(before_line), after: Some(after_line), context },
        );
        proof {
            assert(diff::changes_view(changes@) =~= diff::changes_view(changes_before).push(
                changes@.last()@,
            ));
            assert(diff::changes_view(changes@) == edits::edit_changes(
                ls,
                es,
                sep,
                context_lines as int,
                li + 1,
            ));
            lemma_after_group(s, sp@, context_lines as int, b, li, k0, k1);
            next = li + 1;
            next_at = e + 1;
            if i < found.len() {
                assert(scan_at <= sp@[i as int].start) by {
                    assert(sp@[k0].end <= sp@[i as int].start);
                }
            }
        }
    }
    let ghost from = spans::resume_at(sp@, sp@.len() as int);
    proof {
        offsets::lemma_byte_pos_ends(s);
        assert(s.subrange(from, s.len() as int) =~= s.skip(from));
    }
    let tail = slice_str(text, last_end, total, Ghost(from), Ghost(s.len() as int));
    out.append(tail);
    EngineOutput {
        text: Some(out),
        changes,
        undo: Some(UndoEntry { original_text: owned(text) }),
    }
}

/// A span that starts on a line ends in its content.
pub proof fn lemma_span_in_line(s: Seq<char>, sp: Seq<Span>, k: int, b: int, e: int)
    requires
        spans::spans_ok(s.len(), sp),
        spans_in_lines(s, sp),
        0 <= k < sp.len(),
        0 <= b <= sp[k].start <= e,
        e == lines::first_newline(s, b),
    ensures
        sp[k].start < e,
        sp[k].end <= lines::content_end(s, b, e),
        b <= lines::content_end(s, b, e) <= e,
{
    lines::lemma_first_newline(s, b);
    let m = s.subrange(sp[k].start, sp[k].end);
    assert forall|j: int| sp[k].start <= j < sp[k].end implies s[j] != '\n' && s[j] != '\r' by {
        assert(m[j - sp[k].start] == s[j]);
        assert(m.contains(m[j - sp[k].start]));
    }
}

/// Behind a line with spans, the next span stands on a later line, and behind
/// the last span no line changes.
proof fn lemma_after_group(s: Seq<char>, sp: Seq<Span>, n: int, b: int, li: int, k0: int, k1: int)
    requires
        spans::spans_ok(s.len(), sp),
        spans_in_lines(s, sp),
        line_begins(s, b, li),
        b < s.len(),
        0 <= k0 < k1 <= sp.len(),
        b <= sp[k0].start,
        k1 == first_from(sp, lines::first_newline(s, b), k0),
    ensures
        k1 < sp.len() ==> {
            let e = lines::first_newline(s, b);
            &&& line_begins(s, e + 1, li + 1)
            &&& e + 1 <= sp[k1].start
            &&& first_from(sp, e + 1, 0) == k1
        },
        k1 == sp.len() ==> edits::edit_changes(
            lines::lines(s),
            spliced_edits(s, sp),
            engine::separator(s),
            n,
            lines::lines(s).len() as int,
        ) == edits::edit_changes(
            lines::lines(s),
            spliced_edits(s, sp),
            engine::separator(s),
            n,
            li + 1,
        ),
{
    let e = lines::first_newline(s, b);
    lines::lemma_first_newline(s, b);
    lemma_first_from(sp, e, k0);
    assert forall|l: int| 0 <= l < k1 implies sp[l].start < e by {
        if l < k0 {
            assert(sp[l].end <= sp[k0].start);
        }
    }
    if k1 < sp.len() {
        assert(sp[k1].start >= e);
        if sp[k1].start == e {
            lemma_span_in_line(s, sp, k1, b, e);
        }
        lemma_next_begins(s, b, li);
        lemma_first_from_is(sp, e + 1, 0, k1);
    } else {
        if e < s.len() {
            lemma_next_begins(s, b, li);
            lemma_changes_tail(s, sp, n, li + 1, e + 1);
        } else {
            lemma_last_line(s, b, li);
        }
    }
}

/// Splices a replace into a text where that can be done; `None` where the
/// lines have to be gone through one by one.
pub fn try_splice(text: &str, op: &Op, m: &Matcher, context_lines: usize) -> (r: Option<EngineOutput>)
    requires
        op@.action is Replace,
    ensures
        match r {
            Some(out) => spans_in_lines(text@, splice_spans_of(text@, op@.action, m@)) && out@
                == spliced_output(
                text@,
                splice_spans_of(text@, op@.action, m@),
                context_lines as int,
            ),
            None => !spans_in_lines(text@, splice_spans_of(text@, op@.action, m@)),
        },
{
    let replace = match op {
        Op::Replace { replace, .. } => replace.as_str(),
        _ => "",
    };
    let found = m.find_replacements(text, replace);
    let ghost sp0 = m@.spans(text@, replace@);
    let ghost sp = splice_spans_of(text@, op@.action, m@);
    let found = truncate_spans(found, replace_budget(op), Ghost(text@), Ghost(sp0));
    if !check_spans(text, &found, Ghost(sp)) {
        return None;
    }
    Some(apply_spliced(text, &found, context_lines, Ghost(sp)))
}

} // verus!
