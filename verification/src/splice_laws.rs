//! Splicing a literal replace gives what the pass over the lines gives.
use vstd::prelude::*;

use crate::edits;
use crate::edits::LineEdit;
use crate::engine;
use crate::lines;
use crate::matcher;
use crate::matcher::MatcherView;
use crate::needles;
use crate::needles::Needle;
use crate::multiline;
use crate::operation::{OpView, ReplaceCount};
use crate::rex;
use crate::spans;
use crate::spans::Span;
use crate::splice;

verus! {

/// Positions moved by `d`.
spec fn moved(starts: Seq<int>, d: int) -> Seq<int> {
    starts.map_values(|i: int| i + d)
}

/// A literal that no line terminator can be part of.
pub open spec fn is_line_needle(q: Needle) -> bool {
    &&& q.pat.len() > 0
    &&& !q.pat.contains('\n')
    &&& !q.pat.contains('\r')
    &&& q.folded ==> rex::finds_folded(rex::folded_source(q.pat), q.pat)
}

/// No match touches the terminator of a line.
proof fn lemma_no_match_across(s: Seq<char>, q: Needle, b: int, j: int)
    requires
        is_line_needle(q),
        0 <= b < s.len(),
        b <= j <= lines::first_newline(s, b),
        j + q.pat.len() > lines::content_end(s, b, lines::first_newline(s, b)),
    ensures
        !needles::stands_at(q, s, j),
{
    let e = lines::first_newline(s, b);
    let ce = lines::content_end(s, b, e);
    lines::lemma_first_newline(s, b);
    if needles::stands_at(q, s, j) {
        let at = if j <= ce {
            ce
        } else {
            e
        };
        assert(s[at] == '\n' || s[at] == '\r');
        assert(needles::is_same(q, q.pat[at - j], s[at]));
        assert(q.pat[at - j] == s[at]) by {
            reveal(rex::finds_folded);
        }
        assert(q.pat.contains(s[at]));
    }
}

/// The matches from inside a line on: those of the rest of the line, and those
/// behind its terminator.
proof fn lemma_starts_in_line(s: Seq<char>, q: Needle, b: int, from: int)
    requires
        is_line_needle(q),
        0 <= b < s.len(),
        b <= from <= lines::content_end(s, b, lines::first_newline(s, b)),
    ensures
        ({
            let e = lines::first_newline(s, b);
            let content = s.subrange(b, lines::content_end(s, b, e));
            needles::starts(q, s, from) == moved(
                needles::starts(q, content, from - b),
                b,
            ) + needles::starts(q, s, e + 1)
        }),
    decreases lines::content_end(s, b, lines::first_newline(s, b)) - from,
{
    let e = lines::first_newline(s, b);
    let ce = lines::content_end(s, b, e);
    lines::lemma_first_newline(s, b);
    let content = s.subrange(b, ce);
    let rest = needles::starts(q, s, e + 1);
    if from - b + q.pat.len() <= content.len() {
        assert(needles::stands_at(q, s, from) == needles::stands_at(q, content, from - b)) by {
            assert forall|k: int| 0 <= k < q.pat.len() implies s[from + k] == #[trigger] content[
            from - b + k] by {}
        }
        if needles::stands_at(q, s, from) {
            lemma_starts_in_line(s, q, b, from + q.pat.len());
            let tail = needles::starts(q, content, from - b + q.pat.len());
            assert(needles::starts(q, content, from - b) =~= seq![from - b] + tail);
            assert(moved(seq![from - b] + tail, b) =~= seq![from] + moved(tail, b));
            assert(seq![from] + (moved(tail, b) + rest) =~= (seq![from] + moved(tail, b)) + rest);
        } else {
            lemma_starts_in_line(s, q, b, from + 1);
        }
    } else {
        assert forall|j: int| from <= j < e + 1 implies !needles::stands_at(q, s, j) by {
            lemma_no_match_across(s, q, b, j);
        }
        needles::lemma_starts_skip(q, s, from, e + 1);
        assert(needles::starts(q, content, from - b) =~= Seq::<int>::empty());
        assert(moved(Seq::<int>::empty(), b) + rest =~= rest);
    }
}

/// Where the matches on and behind a line stand among all matches.
spec fn aligned(s: Seq<char>, q: Needle, rep: Seq<char>, b: int, c: int) -> bool {
    let full = needles::needle_spans(q, s, rep);
    &&& 0 <= c <= full.len()
    &&& splice::first_from(full, b, 0) == c
    &&& needles::starts(q, s, 0).skip(c) == needles::starts(q, s, b)
}

/// The matches of the whole text that start on a line are the matches of the line.
#[verifier::rlimit(30)]
proof fn lemma_spans_of_line(s: Seq<char>, q: Needle, rep: Seq<char>, b: int, i: int, c: int)
    requires
        is_line_needle(q),
        splice::line_begins(s, b, i),
        b < s.len(),
        aligned(s, q, rep, b, c),
    ensures
        ({
            let full = needles::needle_spans(q, s, rep);
            let e = lines::first_newline(s, b);
            let content = s.subrange(b, lines::content_end(s, b, e));
            let on_line = needles::needle_spans(q, content, rep);
            let cn = c + on_line.len();
            &&& cn <= full.len()
            &&& splice::first_from(full, e, c) == cn
            &&& splice::shifted(full.subrange(c, cn), b) == on_line
            &&& aligned(s, q, rep, e + 1, cn)
        }),
{
    let full = needles::needle_spans(q, s, rep);
    let starts = needles::starts(q, s, 0);
    let e = lines::first_newline(s, b);
    let ce = lines::content_end(s, b, e);
    lines::lemma_first_newline(s, b);
    let content = s.subrange(b, ce);
    let line_starts = needles::starts(q, content, 0);
    let on_line = needles::needle_spans(q, content, rep);
    lemma_starts_in_line(s, q, b, b);
    let rest = needles::starts(q, s, e + 1);
    let cn = c + on_line.len();
    assert(starts.skip(c) =~= moved(line_starts, b) + rest);
    assert(starts.len() - c == line_starts.len() + rest.len());
    assert forall|k: int| c <= k < cn implies #[trigger] starts[k] == line_starts[k - c] + b by {
        assert(starts.skip(c)[k - c] == starts[k]);
    }
    assert forall|k: int| cn <= k < starts.len() implies #[trigger] starts[k] == rest[k - cn] by {
        assert(starts.skip(c)[k - c] == starts[k]);
    }
    needles::lemma_starts(q, content, 0);
    needles::lemma_starts(q, s, e + 1);
    needles::lemma_starts(q, s, 0);
    splice::lemma_first_from(full, b, 0);
    assert forall|k: int| c <= k < cn implies (#[trigger] full[k]).start < e by {
        assert(full[k].start == starts[k]);
        assert(starts[k] == line_starts[k - c] + b);
        assert(needles::stands_at(q, content, line_starts[k - c]));
    }
    if cn < full.len() {
        assert(full[cn].start == starts[cn]);
        assert(starts[cn] == rest[0]);
    }
    splice::lemma_first_from_is(full, e, c, cn);
    assert(splice::shifted(full.subrange(c, cn), b) =~= on_line) by {
        assert forall|k: int| 0 <= k < on_line.len() implies splice::shifted(
            full.subrange(c, cn),
            b,
        )[k] == #[trigger] on_line[k] by {
            assert(full[c + k].start == starts[c + k]);
            assert(starts[c + k] == line_starts[k] + b);
            let i = line_starts[k];
            assert(needles::stands_at(q, content, i));
            assert(s.subrange(i + b, i + b + q.pat.len()) =~= content.subrange(
                i,
                i + q.pat.len(),
            ));
        }
    }
    assert forall|k: int| 0 <= k < cn implies (#[trigger] full[k]).start < e + 1 by {
        if k < c {
        }
    }
    splice::lemma_first_from_is(full, e + 1, 0, cn);
    assert(starts.skip(cn) =~= rest) by {
        assert forall|k: int| 0 <= k < rest.len() implies starts.skip(cn)[k] == #[trigger] rest[k] by {
            assert(starts[cn + k] == rest[k]);
        }
    }
}

/// What is left of a budget behind `c` occurrences.
spec fn left_of(budget: Option<int>, c: int) -> Option<int> {
    match budget {
        Some(n) => Some(
            if c < n {
                n - c
            } else {
                0
            },
        ),
        None => None,
    }
}

/// The operation on the text, as the law takes it.
spec fn is_literal_replace(op: OpView, rep: Seq<char>) -> bool {
    &&& op.action is Replace
    &&& op.action->Replace_replace == rep
    &&& op.action->Replace_count != ReplaceCount::FirstPerLine
}

/// The pass over the lines agrees with splicing before line `i`: as many
/// occurrences are used up as stand before the line.
proof fn lemma_pass_state(
    s: Seq<char>,
    op: OpView,
    m: MatcherView,
    q: Needle,
    rep: Seq<char>,
    i: int,
) -> (r: (int, int))
    requires
        is_line_needle(q),
        needles::looks_for(m, q),
        is_literal_replace(op, rep),
        0 <= i < lines::lines(s).len(),
    ensures
        splice::line_begins(s, r.0, i),
        r.0 < s.len(),
        aligned(s, q, rep, r.0, r.1),
        engine::state_at(op.action, m, None, lines::lines(s), i).budget == left_of(
            engine::replace_budget_of(op.action),
            r.1,
        ),
    decreases i,
{
    let ls = lines::lines(s);
    if i == 0 {
        splice::lemma_first_begins(s);
        splice::lemma_line_at(s, 0, 0);
        let full = needles::needle_spans(q, s, rep);
        needles::lemma_needle_spans_ok(q, s, rep);
        splice::lemma_first_from_is(full, 0, 0, 0);
        assert(needles::starts(q, s, 0).skip(0) =~= needles::starts(q, s, 0));
        (0, 0)
    } else {
        let (b, c) = lemma_pass_state(s, op, m, q, rep, i - 1);
        lemma_spans_of_line(s, q, rep, b, i - 1, c);
        splice::lemma_line_at(s, b, i - 1);
        let e = lines::first_newline(s, b);
        lines::lemma_first_newline(s, b);
        if e == s.len() {
            splice::lemma_last_line(s, b, i - 1);
        }
        splice::lemma_next_begins(s, b, i - 1);
        splice::lemma_line_at(s, e + 1, i);
        let on_line = needles::needle_spans(q, ls[i - 1], rep);
        needles::lemma_needle_spans(m, q, ls[i - 1], rep);
        (e + 1, c + on_line.len())
    }
}

/// Cutting the spans of a text to a budget cuts the spans of each line to what
/// the lines before leave of it.
proof fn lemma_cut_line(full: Seq<Span>, budget: Option<int>, len: nat, b: int, e: int, c: int, cn: int)
    requires
        spans::spans_ok(len, full),
        0 <= c <= cn <= full.len(),
        splice::first_from(full, b, 0) == c,
        splice::first_from(full, e, c) == cn,
        match budget {
            Some(n) => 0 <= n,
            None => true,
        },
    ensures
        ({
            let sp = multiline::within_budget(full, budget);
            let line = full.subrange(c, cn);
            splice::spans_between(sp, b, e) == (match left_of(budget, c) {
                Some(left) => if left == 0 {
                    Seq::<Span>::empty()
                } else {
                    spans::limited(line, left)
                },
                None => line,
            })
        }),
{
    let sp = multiline::within_budget(full, budget);
    let line = full.subrange(c, cn);
    splice::lemma_first_from(full, b, 0);
    splice::lemma_first_from(full, e, c);
    let n = sp.len() as int;
    let c2 = if c < n {
        c
    } else {
        n
    };
    let cn2 = if cn < n {
        cn
    } else {
        n
    };
    assert forall|k: int| 0 <= k < n implies sp[k] == full[k] by {}
    splice::lemma_first_from_is(sp, b, 0, c2);
    splice::lemma_first_from_is(sp, e, c2, cn2);
    match left_of(budget, c) {
        Some(left) => {
            if left == 0 {
                assert(splice::spans_between(sp, b, e) =~= Seq::<Span>::empty());
            } else {
                assert(splice::spans_between(sp, b, e) =~= spans::limited(line, left));
            }
        },
        None => {
            assert(splice::spans_between(sp, b, e) =~= line);
        },
    }
}

/// Moving spans commutes with cutting them.
proof fn lemma_shift_cut(line: Seq<Span>, left: int, b: int)
    requires
        0 <= left,
    ensures
        splice::shifted(spans::limited(line, left), b) == spans::limited(
            splice::shifted(line, b),
            left,
        ),
{
    assert(splice::shifted(spans::limited(line, left), b) =~= spans::limited(
        splice::shifted(line, b),
        left,
    ));
}

/// Splicing and the pass over the lines decide the same for every line.
proof fn lemma_same_edit(
    s: Seq<char>,
    op: OpView,
    m: MatcherView,
    q: Needle,
    rep: Seq<char>,
    i: int,
)
    requires
        is_line_needle(q),
        needles::looks_for(m, q),
        is_literal_replace(op, rep),
        0 <= i < lines::lines(s).len(),
    ensures
        splice::spliced_edits(s, splice::splice_spans_of(s, op.action, m))[i] == engine::edit_at(
            op.action,
            m,
            None,
            lines::lines(s),
            i,
        ),
{
    let ls = lines::lines(s);
    let full = needles::needle_spans(q, s, rep);
    let budget = engine::replace_budget_of(op.action);
    let sp = splice::splice_spans_of(s, op.action, m);
    let (b, c) = lemma_pass_state(s, op, m, q, rep, i);
    lemma_spans_of_line(s, q, rep, b, i, c);
    splice::lemma_line_at(s, b, i);
    needles::lemma_needle_spans_ok(q, s, rep);
    let e = lines::first_newline(s, b);
    let on_line = needles::needle_spans(q, ls[i], rep);
    needles::lemma_needle_spans(m, q, s, rep);
    needles::lemma_needle_spans(m, q, ls[i], rep);
    let cn = c + on_line.len();
    lemma_cut_line(full, budget, s.len(), b, e, c, cn);
    let line = full.subrange(c, cn);
    match left_of(budget, c) {
        Some(left) => {
            if left == 0 {
                assert(splice::spans_on_line(s, sp, i) =~= Seq::<Span>::empty());
            } else {
                lemma_shift_cut(line, left, b);
            }
        },
        None => {},
    }
    let st = engine::state_at(op.action, m, None, ls, i);
    let used = engine::line_spans(
        m,
        ls[i],
        rep,
        op.action->Replace_count,
        st.budget,
    );
    assert(splice::spans_on_line(s, sp, i) == used);
}

// ---------------------------------------------------------------------------
// The text
// ---------------------------------------------------------------------------

/// A newline among the first `n` characters is counted.
proof fn lemma_counted(s: Seq<char>, k: int, n: int)
    requires
        0 <= k < n <= s.len(),
        s[k] == '\n',
    ensures
        k >= 1 && s[k - 1] == '\r' ==> engine::crlf_count(s, n) > 0,
        !(k >= 1 && s[k - 1] == '\r') ==> engine::bare_lf_count(s, n) > 0,
    decreases n,
{
    if k < n - 1 {
        lemma_counted(s, k, n - 1);
    }
}

/// In a text with uniform line endings, every terminator is the separator.
proof fn lemma_uniform_terminator(s: Seq<char>, b: int, i: int)
    requires
        splice::line_begins(s, b, i),
        lines::first_newline(s, b) < s.len(),
        !(engine::crlf_count(s, s.len() as int) > 0 && engine::bare_lf_count(s, s.len() as int) > 0),
    ensures
        ({
            let e = lines::first_newline(s, b);
            s.subrange(lines::content_end(s, b, e), e + 1) == engine::separator(s)
        }),
{
    let e = lines::first_newline(s, b);
    lines::lemma_first_newline(s, b);
    lemma_counted(s, e, s.len() as int);
    reveal_strlit("\r\n");
    reveal_strlit("\n");
    assert(s.subrange(lines::content_end(s, b, e), e + 1) =~= engine::separator(s));
}

/// The output of splicing up to position `x`, with the first `k` spans replaced.
spec fn out_to(s: Seq<char>, sp: Seq<Span>, k: int, x: int) -> Seq<char> {
    spans::spliced_prefix(s, sp, k) + s.subrange(spans::resume_at(sp, k), x)
}

/// Spans before a line start end before it.
proof fn lemma_resume_before(s: Seq<char>, sp: Seq<Span>, b: int, i: int, k: int)
    requires
        spans::spans_ok(s.len(), sp),
        splice::spans_in_lines(s, sp),
        splice::line_begins(s, b, i),
        0 <= k <= sp.len(),
        forall|l: int| 0 <= l < k ==> sp[l].start < b,
    ensures
        0 <= spans::resume_at(sp, k) <= b,
{
    if k > 0 {
        let last = sp[k - 1];
        if last.end > b {
            let m = s.subrange(last.start, last.end);
            assert(m[b - 1 - last.start] == '\n');
            assert(m.contains('\n'));
        }
    }
}

/// Within a line, splicing the text and splicing the line go side by side.
proof fn lemma_splice_in_line(
    s: Seq<char>,
    sp: Seq<Span>,
    b: int,
    i: int,
    k0: int,
    k1: int,
    j: int,
    x: int,
)
    requires
        spans::spans_ok(s.len(), sp),
        splice::spans_in_lines(s, sp),
        splice::line_begins(s, b, i),
        b < s.len(),
        k0 == splice::first_from(sp, b, 0),
        k1 == splice::first_from(sp, lines::first_newline(s, b), k0),
        0 <= j <= k1 - k0,
        b <= x <= lines::content_end(s, b, lines::first_newline(s, b)),
        j > 0 ==> sp[k0 + j - 1].end <= x,
    ensures
        ({
            let content = s.subrange(b, lines::content_end(s, b, lines::first_newline(s, b)));
            let on_line = splice::shifted(sp.subrange(k0, k1), b);
            &&& 0 <= spans::resume_at(on_line, j) <= x - b
            &&& out_to(s, sp, k0 + j, x) == out_to(s, sp, k0, b) + (spans::spliced_prefix(
                content,
                on_line,
                j,
            ) + content.subrange(spans::resume_at(on_line, j), x - b))
        }),
    decreases j,
{
    let e = lines::first_newline(s, b);
    let ce = lines::content_end(s, b, e);
    let content = s.subrange(b, ce);
    let on_line = splice::shifted(sp.subrange(k0, k1), b);
    lines::lemma_first_newline(s, b);
    splice::lemma_first_from(sp, b, 0);
    splice::lemma_first_from(sp, e, k0);
    lemma_resume_before(s, sp, b, i, k0);
    let head = out_to(s, sp, k0, b);
    if j == 0 {
        let r0 = spans::resume_at(sp, k0);
        assert(s.subrange(r0, x) =~= s.subrange(r0, b) + s.subrange(b, x));
        assert(content.subrange(0, x - b) =~= s.subrange(b, x));
        assert(spans::spliced_prefix(content, on_line, 0) + content.subrange(0, x - b)
            =~= s.subrange(b, x));
        assert(out_to(s, sp, k0, x) =~= head + s.subrange(b, x));
    } else {
        let sk = sp[k0 + j - 1];
        assert(sk.start < e);
        assert(sk.start >= b) by {
            if j - 1 > 0 {
                assert(sp[k0].end <= sk.start);
            }
        }
        splice::lemma_span_in_line(s, sp, k0 + j - 1, b, e);
        if j - 1 > 0 {
            assert(sp[k0 + j - 2].end <= sk.start);
        }
        lemma_splice_in_line(s, sp, b, i, k0, k1, j - 1, sk.start);
        assert(on_line[j - 1] == (Span {
            start: sk.start - b,
            end: sk.end - b,
            replacement: sk.replacement,
        }));
        let inner = spans::spliced_prefix(content, on_line, j - 1) + content.subrange(
            spans::resume_at(on_line, j - 1),
            sk.start - b,
        );
        assert(out_to(s, sp, k0 + j - 1, sk.start) == head + inner);
        assert(spans::spliced_prefix(content, on_line, j) == inner + sk.replacement);
        assert(spans::spliced_prefix(s, sp, k0 + j) == out_to(s, sp, k0 + j - 1, sk.start)
            + sk.replacement);
        assert(content.subrange(sk.end - b, x - b) =~= s.subrange(sk.end, x));
        assert(out_to(s, sp, k0 + j, x) =~= head + ((inner + sk.replacement) + s.subrange(
            sk.end,
            x,
        )));
    }
}

/// What becomes of a line that is kept or replaced.
spec fn one_line(es: Seq<LineEdit>, ls: Seq<Seq<char>>, i: int) -> Seq<char> {
    match es[i] {
        LineEdit::Put { line } => line,
        _ => ls[i],
    }
}

/// Splicing a text is splicing its line and what stands before it.
proof fn lemma_splice_line(s: Seq<char>, sp: Seq<Span>, b: int, i: int)
    requires
        spans::spans_ok(s.len(), sp),
        splice::spans_in_lines(s, sp),
        splice::line_begins(s, b, i),
        b < s.len(),
    ensures
        ({
            let e = lines::first_newline(s, b);
            let ce = lines::content_end(s, b, e);
            let k0 = splice::first_from(sp, b, 0);
            let k1 = splice::first_from(sp, e, k0);
            &&& 0 <= spans::resume_at(sp, k1) <= ce
            &&& out_to(s, sp, k1, ce) == out_to(s, sp, k0, b) + one_line(
                splice::spliced_edits(s, sp),
                lines::lines(s),
                i,
            )
        }),
{
    let e = lines::first_newline(s, b);
    let ce = lines::content_end(s, b, e);
    let k0 = splice::first_from(sp, b, 0);
    let k1 = splice::first_from(sp, e, k0);
    lines::lemma_first_newline(s, b);
    splice::lemma_first_from(sp, b, 0);
    splice::lemma_first_from(sp, e, k0);
    splice::lemma_line_at(s, b, i);
    lemma_resume_before(s, sp, b, i, k0);
    let content = lines::lines(s)[i];
    let on_line = splice::shifted(sp.subrange(k0, k1), b);
    assert(splice::spans_on_line(s, sp, i) =~= on_line);
    if k1 > k0 {
        assert(sp[k0].start >= b);
        if k1 - 1 > k0 {
            assert(sp[k0].end <= sp[k1 - 1].start);
        }
        splice::lemma_span_in_line(s, sp, k1 - 1, b, e);
    }
    lemma_splice_in_line(s, sp, b, i, k0, k1, k1 - k0, ce);
    assert(content.subrange(spans::resume_at(on_line, k1 - k0), ce - b) =~= content.skip(
        spans::resume_at(on_line, k1 - k0),
    ));
    if on_line.len() == 0 {
        assert(spans::splice(content, on_line) =~= content);
    }
}

/// One more line in front of a separator.
proof fn lemma_rejoin_push(before: Seq<Seq<char>>, line: Seq<char>, sep: Seq<char>)
    ensures
        edits::join(before.push(line), sep) == edits::rejoin(before, sep, true) + line,
        edits::rejoin(before.push(line), sep, true) == edits::rejoin(before, sep, true) + line
            + sep,
{
    let done = before.push(line);
    assert(done.drop_last() =~= before);
    if before.len() == 0 {
        assert(edits::rejoin(before, sep, true) =~= Seq::<char>::empty());
        assert(edits::rejoin(before, sep, true) + line =~= line);
    }
}

/// A line that is kept or replaced stays one line.
proof fn lemma_edit_lines_push(ls: Seq<Seq<char>>, es: Seq<LineEdit>, i: int)
    requires
        0 <= i,
        es[i] is Keep || es[i] is Put,
    ensures
        edits::edit_lines(ls, es, i + 1) == edits::edit_lines(ls, es, i).push(one_line(es, ls, i)),
{
    assert(edits::edit_lines(ls, es, i + 1) =~= edits::edit_lines(ls, es, i).push(
        one_line(es, ls, i),
    ));
}

/// The first span behind a line is the first at or behind the next line.
proof fn lemma_next_first(s: Seq<char>, sp: Seq<Span>, b: int, i: int)
    requires
        spans::spans_ok(s.len(), sp),
        splice::spans_in_lines(s, sp),
        splice::line_begins(s, b, i),
        b < s.len(),
        lines::first_newline(s, b) < s.len(),
    ensures
        ({
            let e = lines::first_newline(s, b);
            splice::first_from(sp, e + 1, 0) == splice::first_from(
                sp,
                e,
                splice::first_from(sp, b, 0),
            )
        }),
{
    let e = lines::first_newline(s, b);
    let k0 = splice::first_from(sp, b, 0);
    let k1 = splice::first_from(sp, e, k0);
    lines::lemma_first_newline(s, b);
    splice::lemma_first_from(sp, b, 0);
    splice::lemma_first_from(sp, e, k0);
    // The next span does not start at the terminator.
    if k1 < sp.len() && sp[k1].start == e {
        splice::lemma_span_in_line(s, sp, k1, b, e);
    }
    splice::lemma_first_from_is(sp, e + 1, 0, k1);
}

/// Where the line before a line starts.
proof fn lemma_prev_line(s: Seq<char>, b: int, i: int) -> (p: int)
    requires
        splice::line_begins(s, b, i),
        i > 0,
    ensures
        splice::line_begins(s, p, i - 1),
        p < s.len(),
        lines::first_newline(s, p) == b - 1,
{
    if b == 0 {
        assert(s.take(0) =~= Seq::<char>::empty());
    }
    let p = lines::line_start(s, b - 1);
    lines::lemma_line_start(s, b - 1);
    splice::lemma_line_of(s, b - 1);
    assert(s.take(b).drop_last() =~= s.take(b - 1));
    lines::lemma_first_newline_is(s, p, b - 1);
    p
}

/// Splicing up to the next line adds the line and its separator.
proof fn lemma_splice_step(s: Seq<char>, sp: Seq<Span>, b: int, i: int)
    requires
        spans::spans_ok(s.len(), sp),
        splice::spans_in_lines(s, sp),
        splice::line_begins(s, b, i),
        b < s.len(),
        lines::first_newline(s, b) < s.len(),
        !(engine::crlf_count(s, s.len() as int) > 0 && engine::bare_lf_count(s, s.len() as int) > 0),
    ensures
        ({
            let e = lines::first_newline(s, b);
            out_to(s, sp, splice::first_from(sp, e + 1, 0), e + 1) == out_to(
                s,
                sp,
                splice::first_from(sp, b, 0),
                b,
            ) + one_line(splice::spliced_edits(s, sp), lines::lines(s), i) + engine::separator(s)
        }),
{
    let e = lines::first_newline(s, b);
    let ce = lines::content_end(s, b, e);
    lemma_next_first(s, sp, b, i);
    lemma_splice_line(s, sp, b, i);
    lemma_uniform_terminator(s, b, i);
    lines::lemma_first_newline(s, b);
    let k1 = splice::first_from(sp, e + 1, 0);
    let r = spans::resume_at(sp, k1);
    assert(s.subrange(r, e + 1) =~= s.subrange(r, ce) + s.subrange(ce, e + 1));
    assert(out_to(s, sp, k1, e + 1) =~= out_to(s, sp, k1, ce) + engine::separator(s));
}

/// What stands before line `i` after splicing: the lines before it, each with
/// its separator.
proof fn lemma_splice_before(s: Seq<char>, sp: Seq<Span>, b: int, i: int)
    requires
        spans::spans_ok(s.len(), sp),
        splice::spans_in_lines(s, sp),
        splice::line_begins(s, b, i),
        !(engine::crlf_count(s, s.len() as int) > 0 && engine::bare_lf_count(s, s.len() as int) > 0),
    ensures
        i <= lines::lines(s).len(),
        out_to(s, sp, splice::first_from(sp, b, 0), b) == edits::rejoin(
            edits::edit_lines(lines::lines(s), splice::spliced_edits(s, sp), i),
            engine::separator(s),
            true,
        ),
    decreases i,
{
    let es = splice::spliced_edits(s, sp);
    let ls = lines::lines(s);
    let sep = engine::separator(s);
    splice::lemma_line_at(s, b, i);
    if i == 0 {
        splice::lemma_first_begins(s);
        splice::lemma_begins_order(s, b, i, 0, 0);
        splice::lemma_first_from_is(sp, 0, 0, 0);
        assert(out_to(s, sp, 0, 0) =~= Seq::<char>::empty());
        assert(edits::rejoin(edits::edit_lines(ls, es, 0), sep, true) =~= Seq::<char>::empty());
    } else {
        let p = lemma_prev_line(s, b, i);
        lemma_splice_before(s, sp, p, i - 1);
        lemma_splice_step(s, sp, p, i - 1);
        splice::lemma_line_at(s, p, i - 1);
        lemma_edit_lines_push(ls, es, i - 1);
        lemma_rejoin_push(edits::edit_lines(ls, es, i - 1), one_line(es, ls, i - 1), sep);
    }
}

/// The spliced text is the edited lines, joined again.
pub proof fn lemma_spliced_text(s: Seq<char>, sp: Seq<Span>)
    requires
        spans::spans_ok(s.len(), sp),
        splice::spans_in_lines(s, sp),
        !(engine::crlf_count(s, s.len() as int) > 0 && engine::bare_lf_count(s, s.len() as int) > 0),
    ensures
        spans::splice(s, sp) == edits::rejoin(
            edits::edit_lines(
                lines::lines(s),
                splice::spliced_edits(s, sp),
                lines::lines(s).len() as int,
            ),
            engine::separator(s),
            edits::ends_with_newline(s),
        ),
{
    let es = splice::spliced_edits(s, sp);
    let ls = lines::lines(s);
    let sep = engine::separator(s);
    let n = ls.len() as int;
    let total = sp.len() as int;
    lines::lemma_lines_len(s, 0);
    assert(s.skip(0) =~= s);
    let r = spans::resume_at(sp, total);
    assert(0 <= r <= s.len()) by {
        if total > 0 {
            assert(sp[total - 1].end <= s.len());
        }
    }
    assert(s.skip(r) =~= s.subrange(r, s.len() as int));
    assert(spans::splice(s, sp) == out_to(s, sp, total, s.len() as int));
    splice::lemma_line_of(s, s.len() as int);
    assert(s.take(s.len() as int) =~= s);
    if edits::ends_with_newline(s) || s.len() == 0 {
        assert(splice::line_begins(s, s.len() as int, n));
        assert forall|l: int| 0 <= l < total implies sp[l].start < s.len() by {
            assert(sp[l].start < sp[l].end);
        }
        splice::lemma_first_from_is(sp, s.len() as int, 0, total);
        lemma_splice_before(s, sp, s.len() as int, n);
        if s.len() == 0 {
            assert(n == 0);
            assert(edits::rejoin(edits::edit_lines(ls, es, n), sep, false)
                =~= Seq::<char>::empty());
        }
    } else {
        let b = lines::line_start(s, s.len() as int);
        lines::lemma_line_start(s, s.len() as int);
        if b == s.len() {
            assert(s[s.len() - 1] == '\n');
        }
        lines::lemma_first_newline_is(s, b, s.len() as int);
        splice::lemma_last_line(s, b, lines::newline_count(s) as int);
        let i = n - 1;
        assert(splice::line_begins(s, b, i));
        lemma_splice_before(s, sp, b, i);
        lemma_splice_line(s, sp, b, i);
        splice::lemma_line_at(s, b, i);
        let k0 = splice::first_from(sp, b, 0);
        let k1 = splice::first_from(sp, s.len() as int, k0);
        splice::lemma_first_from(sp, b, 0);
        splice::lemma_first_from(sp, s.len() as int, k0);
        if k1 < total {
            assert(sp[k1].start < sp[k1].end);
        }
        assert(k1 == total);
        let done = edits::edit_lines(ls, es, n);
        lemma_edit_lines_push(ls, es, i);
        lemma_rejoin_push(edits::edit_lines(ls, es, i), one_line(es, ls, i), sep);
        assert(edits::rejoin(done, sep, false) =~= edits::join(done, sep));
    }
}

/// Changes agree where the edits agree.
proof fn lemma_same_changes(
    ls: Seq<Seq<char>>,
    es: Seq<LineEdit>,
    fs: Seq<LineEdit>,
    sep: Seq<char>,
    context_lines: int,
    n: int,
)
    requires
        0 <= n <= ls.len(),
        forall|i: int| 0 <= i < n ==> es[i] == fs[i],
    ensures
        edits::edit_changes(ls, es, sep, context_lines, n) == edits::edit_changes(
            ls,
            fs,
            sep,
            context_lines,
            n,
        ),
        edits::edit_lines(ls, es, n) == edits::edit_lines(ls, fs, n),
    decreases n,
{
    if n > 0 {
        lemma_same_changes(ls, es, fs, sep, context_lines, n - 1);
    }
}

/// An edit that does not keep its line is a change.
proof fn lemma_some_change(
    ls: Seq<Seq<char>>,
    es: Seq<LineEdit>,
    sep: Seq<char>,
    context_lines: int,
    i: int,
    n: int,
)
    requires
        0 <= i < n <= ls.len(),
        !(es[i] is Keep),
    ensures
        edits::edit_changes(ls, es, sep, context_lines, n).len() > 0,
    decreases n,
{
    if i < n - 1 {
        lemma_some_change(ls, es, sep, context_lines, i, n - 1);
    }
}

/// Spans in a text change one of its lines.
pub proof fn lemma_spans_change(s: Seq<char>, sp: Seq<Span>, context_lines: int)
    requires
        spans::spans_ok(s.len(), sp),
        splice::spans_in_lines(s, sp),
        sp.len() > 0,
    ensures
        edits::edit_changes(
            lines::lines(s),
            splice::spliced_edits(s, sp),
            engine::separator(s),
            context_lines,
            lines::lines(s).len() as int,
        ).len() > 0,
{
    let g = sp[0].start;
    assert(g < sp[0].end);
    let b = lines::line_start(s, g);
    let i = lines::newline_count(s.take(g)) as int;
    lines::lemma_line_start(s, g);
    splice::lemma_line_of(s, g);
    splice::lemma_line_at(s, b, i);
    lines::lemma_first_newline(s, b);
    let e = lines::first_newline(s, b);
    if g >= e {
        assert(s[e] == '\n');
        if e < g {
            assert(s[e] != '\n');
        }
        let m = s.subrange(g, sp[0].end);
        assert(m[0] == '\n');
        assert(m.contains('\n'));
    }
    splice::lemma_first_from_is(sp, b, 0, 0);
    splice::lemma_first_from(sp, e, 0);
    assert(splice::first_from(sp, e, 0) > 0);
    assert(splice::spans_on_line(s, sp, i).len() > 0);
    lemma_some_change(
        lines::lines(s),
        splice::spliced_edits(s, sp),
        engine::separator(s),
        context_lines,
        i,
        lines::lines(s).len() as int,
    );
}

/// A match of a literal holds no line terminator.
proof fn lemma_matched(q: Needle, text: Seq<char>, i: int)
    requires
        is_line_needle(q),
        needles::stands_at(q, text, i),
    ensures
        !text.subrange(i, i + q.pat.len()).contains('\n'),
        !text.subrange(i, i + q.pat.len()).contains('\r'),
{
    let there = text.subrange(i, i + q.pat.len());
    assert forall|k: int| 0 <= k < there.len() implies there[k] != '\n' && there[k] != '\r' by {
        assert(needles::is_same(q, q.pat[k], text[i + k]));
        if there[k] == '\n' || there[k] == '\r' {
            assert(q.pat[k] == there[k]) by {
                reveal(rex::finds_folded);
            }
            assert(q.pat.contains(there[k]));
        }
    }
}

/// Splicing is an optimisation that nobody sees: where a literal replace is a
/// candidate for splicing, whether case matters or not, it is spliced, and both
/// the text and the record of changes are those of the pass over the lines.
pub proof fn law_splice_is_line_pass(
    text: Seq<char>,
    op: OpView,
    m: MatcherView,
    context_lines: int,
)
    requires
        splice::splice_candidate(text, op, None),
        needles::looks_for(m, needles::needle_of(op)),
    ensures
        splice::is_spliced(text, op, m, None),
        splice::spliced_output(
            text,
            splice::splice_spans_of(text, op.action, m),
            context_lines,
        ) == engine::line_output(text, op.action, m, None, context_lines),
{
    let q = needles::needle_of(op);
    let rep = op.action->Replace_replace;
    let ls = lines::lines(text);
    let n = ls.len() as int;
    let sep = engine::separator(text);
    let full = needles::needle_spans(q, text, rep);
    let sp = splice::splice_spans_of(text, op.action, m);
    needles::lemma_needle_spans(m, q, text, rep);
    needles::lemma_needle_spans_ok(q, text, rep);
    needles::lemma_starts(q, text, 0);
    assert forall|k: int| 0 <= k < sp.len() implies (#[trigger] sp[k]).start < sp[k].end
        && !text.subrange(sp[k].start, sp[k].end).contains('\n') && !text.subrange(
        sp[k].start,
        sp[k].end,
    ).contains('\r') by {
        assert(sp[k] == full[k]);
        lemma_matched(q, text, needles::starts(q, text, 0)[k]);
    }
    assert(spans::spans_ok(text.len(), sp));
    let es = splice::spliced_edits(text, sp);
    let fs = engine::pass_edits(op.action, m, None, ls);
    assert forall|i: int| 0 <= i < n implies es[i] == fs[i] by {
        lemma_same_edit(text, op, m, q, rep, i);
    }
    lemma_same_changes(ls, es, fs, sep, context_lines, n);
    if sp.len() == 0 {
        assert forall|i: int| 0 <= i < n implies es[i] is Keep by {
            assert(splice::spans_on_line(text, sp, i) =~= Seq::<Span>::empty());
        }
        engine::lemma_all_kept(ls, es, sep, context_lines, n);
    } else {
        lemma_spans_change(text, sp, context_lines);
        lemma_spliced_text(text, sp);
    }
}

} // verus!
