//! Laws of patterns: which texts an operation looks for, where it finds them,
//! and what a replace puts there.
use vstd::prelude::*;

use crate::matcher;
use crate::matcher::MatcherView;
use crate::needles;
use crate::operation::OpView;
use crate::rex;
use crate::spans;
use crate::spans::Span;

verus! {

// ---------------------------------------------------------------------------
// Either case
// ---------------------------------------------------------------------------

/// An operation in either case looks for its pattern behind `(?i)`, be it a
/// regular expression or not; a regular expression is looked for as it is
/// written, and any other pattern with its meta characters escaped.
pub proof fn law_case_flag_reaches_the_pattern(op: OpView)
    ensures
        op.regex && op.case_insensitive ==> matcher::matcher_of(op) == (MatcherView::Regex {
            source: "(?i)"@ + op.find,
        }),
        op.regex && !op.case_insensitive ==> matcher::matcher_of(op) == (MatcherView::Regex {
            source: op.find,
        }),
        !op.regex && op.case_insensitive ==> matcher::matcher_of(op) == (MatcherView::Regex {
            source: "(?i)"@ + rex::escaped(op.find),
        }),
        !op.regex && !op.case_insensitive ==> matcher::matcher_of(op) == (MatcherView::Literal {
            pattern: op.find,
        }),
{
}

/// A plain pattern means the same as a regular expression and as a literal
/// where it is looked for in either case.
pub proof fn law_plain_pattern_is_no_regex(op: OpView, other: OpView)
    requires
        needles::is_plain(op.find),
        op.case_insensitive,
        other.case_insensitive,
        op.find == other.find,
    ensures
        matcher::matcher_of(op) == matcher::matcher_of(other),
{
    needles::lemma_plain_is_escaped(op.find);
}

/// Among texts of ASCII, an operation that looks for a plain pattern in either
/// case finds it just where the lower case of the pattern stands in the lower
/// case of the text, whether or not the pattern is a regular expression. (What
/// is asked of the compiled source is what `Regex::new` tells of it.)
pub proof fn law_either_case_finds_lower_case(op: OpView, text: Seq<char>)
    requires
        op.case_insensitive,
        needles::is_plain(op.find),
        rex::finds_folded(rex::folded_source(op.find), op.find),
        forall|k: int| 0 <= k < op.find.len() ==> rex::is_ascii(#[trigger] op.find[k]),
        forall|k: int| 0 <= k < text.len() ==> rex::is_ascii(#[trigger] text[k]),
    ensures
        matcher::matcher_of(op).is_match(text) <==> matcher::contains(
            needles::lowered(text),
            needles::lowered(op.find),
        ),
{
    needles::lemma_plain_is_escaped(op.find);
    needles::law_either_case_is_lower_case(matcher::matcher_of(op), op.find, text);
}

/// A text that holds a plain pattern holds it in either case, too.
pub proof fn law_either_case_finds_more(op: OpView, exact: OpView, text: Seq<char>)
    requires
        op.case_insensitive,
        !exact.case_insensitive,
        !exact.regex,
        op.find == exact.find,
        needles::is_plain(op.find),
        rex::finds_folded(rex::folded_source(op.find), op.find),
        forall|k: int| 0 <= k < op.find.len() ==> rex::is_ascii(#[trigger] op.find[k]),
        forall|k: int| 0 <= k < text.len() ==> rex::is_ascii(#[trigger] text[k]),
        matcher::matcher_of(exact).is_match(text),
    ensures
        matcher::matcher_of(op).is_match(text),
{
    law_either_case_finds_lower_case(op, text);
    let i = choose|i: int| matcher::occurs_at(text, op.find, i);
    assert(needles::lowered(text).subrange(i, i + op.find.len()) =~= needles::lowered(
        text.subrange(i, i + op.find.len()),
    ));
    assert(needles::lowered(op.find).len() == op.find.len());
    assert(matcher::occurs_at(needles::lowered(text), needles::lowered(op.find), i));
}

// ---------------------------------------------------------------------------
// Literals
// ---------------------------------------------------------------------------

/// Every place where a literal stands is a match, or overlaps one that starts
/// before it.
pub proof fn law_no_literal_is_missed(text: Seq<char>, pat: Seq<char>, j: int)
    requires
        pat.len() > 0,
        matcher::occurs_at(text, pat, j),
    ensures
        ({
            let m = MatcherView::Literal { pattern: pat };
            exists|k: int| #![trigger m.spans(text, Seq::empty())[k]]
                0 <= k < m.spans(text, Seq::empty()).len() && m.spans(text, Seq::empty())[k].start
                    <= j < m.spans(text, Seq::empty())[k].end
        }),
{
    let k = lemma_start_covers(text, pat, 0, j);
    let m = MatcherView::Literal { pattern: pat };
    assert(m.spans(text, Seq::empty())[k].start == matcher::literal_starts(text, pat, 0)[k]);
}

proof fn lemma_start_covers(text: Seq<char>, pat: Seq<char>, from: int, j: int) -> (k: int)
    requires
        pat.len() > 0,
        0 <= from <= j,
        matcher::occurs_at(text, pat, j),
    ensures
        0 <= k < matcher::literal_starts(text, pat, from).len(),
        matcher::literal_starts(text, pat, from)[k] <= j < matcher::literal_starts(text, pat, from)[k]
            + pat.len(),
    decreases j - from,
{
    if matcher::occurs_at(text, pat, from) {
        let next = from + pat.len();
        if j < next {
            0
        } else {
            let k = lemma_start_covers(text, pat, next, j);
            assert(matcher::literal_starts(text, pat, from)[k + 1] == matcher::literal_starts(
                text,
                pat,
                next,
            )[k]);
            k + 1
        }
    } else {
        lemma_start_covers(text, pat, from + 1, j)
    }
}

/// Each match of a literal holds the literal and is replaced by the replacement.
pub proof fn law_literal_matches_hold_the_literal(
    text: Seq<char>,
    pat: Seq<char>,
    replacement: Seq<char>,
    k: int,
)
    requires
        0 <= k < (MatcherView::Literal { pattern: pat }).spans(text, replacement).len(),
    ensures
        ({
            let s = (MatcherView::Literal { pattern: pat }).spans(text, replacement)[k];
            &&& 0 <= s.start <= s.end <= text.len()
            &&& text.subrange(s.start, s.end) == pat
            &&& s.replacement == replacement
        }),
{
    matcher::lemma_literal_starts(text, pat, 0);
    let at = matcher::literal_starts(text, pat, 0);
    assert(matcher::occurs_at(text, pat, at[k]));
}

/// Whether `i` is the first place where a literal stands.
pub open spec fn stands_first(text: Seq<char>, pat: Seq<char>, i: int) -> bool {
    &&& 0 <= i
    &&& i + pat.len() <= text.len()
    &&& text.subrange(i, i + pat.len()) == pat
    &&& forall|j: int| 0 <= j < i ==> !matcher::occurs_at(text, pat, j)
}

/// A text with at most `limit` matches of a literal replaced (0: all).
pub open spec fn replaced(text: Seq<char>, pat: Seq<char>, replacement: Seq<char>, limit: int) -> Seq<
    char,
> {
    spans::splice(
        text,
        spans::limited((MatcherView::Literal { pattern: pat }).spans(text, replacement), limit),
    )
}

/// Matches from `from` on are those of the rest of the text, moved.
proof fn lemma_starts_of_rest(text: Seq<char>, pat: Seq<char>, from: int, i: int)
    requires
        0 <= from,
        0 <= i,
        from + i <= text.len() + 1,
        from <= text.len(),
    ensures
        matcher::literal_starts(text, pat, from + i) == matcher::literal_starts(
            text.skip(from),
            pat,
            i,
        ).map_values(|x: int| from + x),
    decreases text.len() + 1 - from - i,
{
    let rest = text.skip(from);
    let f = |x: int| from + x;
    if from + i + pat.len() > text.len() {
        assert(matcher::literal_starts(text, pat, from + i) =~= matcher::literal_starts(
            rest,
            pat,
            i,
        ).map_values(f));
    } else {
        assert(rest.subrange(i, i + pat.len()) =~= text.subrange(
            from + i,
            from + i + pat.len(),
        ));
        let step = if matcher::occurs_at(text, pat, from + i) {
            matcher::match_step(pat)
        } else {
            1
        };
        lemma_starts_of_rest(text, pat, from, i + step);
        let a = matcher::literal_starts(text, pat, from + i + step);
        let b = matcher::literal_starts(rest, pat, i + step);
        if matcher::occurs_at(text, pat, from + i) {
            assert(matcher::occurs_at(rest, pat, i));
            assert((seq![i] + b).map_values(f) =~= seq![from + i] + b.map_values(f));
        } else {
            assert(!matcher::occurs_at(rest, pat, i));
        }
    }
}

/// Splicing behind the first span is splicing the rest.
proof fn lemma_splice_rest(text: Seq<char>, sp: Seq<Span>, rest: Seq<Span>, cut: int, n: int)
    requires
        0 < n <= sp.len(),
        sp.len() == rest.len() + 1,
        0 <= cut <= text.len(),
        sp[0].end == cut,
        0 <= sp[0].start <= cut,
        spans::spans_ok(text.len(), sp),
        forall|k: int| #![trigger rest[k]]
            0 <= k < rest.len() ==> rest[k].start == sp[k + 1].start - cut && rest[k].end == sp[k
                + 1].end - cut && rest[k].replacement == sp[k + 1].replacement,
    ensures
        spans::resume_at(sp, n) == cut + spans::resume_at(rest, n - 1),
        spans::spliced_prefix(text, sp, n) == text.take(sp[0].start) + sp[0].replacement
            + spans::spliced_prefix(text.skip(cut), rest, n - 1),
    decreases n,
{
    reveal_with_fuel(spans::spliced_prefix, 2);
    let lead = text.take(sp[0].start) + sp[0].replacement;
    if n == 1 {
        assert(spans::spliced_prefix(text, sp, 1) =~= lead + Seq::<char>::empty());
    } else {
        lemma_splice_rest(text, sp, rest, cut, n - 1);
        assert(sp[n - 2].end <= sp[n - 1].start);
        if n - 2 > 0 {
            assert(sp[0].end <= sp[n - 2].start);
        }
        assert(rest[n - 2].start == sp[n - 1].start - cut);
        let a = spans::resume_at(sp, n - 1);
        let b = spans::resume_at(rest, n - 2);
        assert(a == cut + b);
        assert(text.subrange(a, sp[n - 1].start) =~= text.skip(cut).subrange(b, rest[n - 2].start));
        let before = spans::spliced_prefix(text.skip(cut), rest, n - 2);
        let gap = text.subrange(a, sp[n - 1].start);
        assert((lead + before) + gap + sp[n - 1].replacement =~= lead + (before + gap + sp[n
            - 1].replacement));
    }
}

/// What replacing a literal is: a text without the literal stays as it is;
/// otherwise what stands before the first place of the literal stays, the
/// literal gives way to the replacement, and the same is done to what stands
/// behind it, as far as the limit goes.
pub proof fn law_replace_goes_from_place_to_place(
    text: Seq<char>,
    pat: Seq<char>,
    replacement: Seq<char>,
    limit: int,
    i: int,
)
    requires
        pat.len() > 0,
        0 <= limit,
        stands_first(text, pat, i),
    ensures
        replaced(text, pat, replacement, limit) == text.take(i) + replacement + (if limit == 1 {
            text.skip(i + pat.len())
        } else {
            replaced(
                text.skip(i + pat.len()),
                pat,
                replacement,
                if limit == 0 {
                    0
                } else {
                    limit - 1
                },
            )
        }),
{
    let m = MatcherView::Literal { pattern: pat };
    let cut = i + pat.len();
    let tail = text.skip(cut);
    matcher::lemma_literal_starts_skip(text, pat, 0, i);
    assert(matcher::occurs_at(text, pat, i));
    assert(matcher::literal_starts(text, pat, 0) == seq![i] + matcher::literal_starts(
        text,
        pat,
        cut,
    ));
    lemma_starts_of_rest(text, pat, cut, 0);
    matcher::lemma_literal_spans(text, pat, replacement);
    matcher::lemma_literal_spans(tail, pat, replacement);
    let all = m.spans(text, replacement);
    let behind = m.spans(tail, replacement);
    assert(all.len() == behind.len() + 1);
    assert forall|k: int| 0 <= k < behind.len() implies (#[trigger] behind[k]).start == all[k
        + 1].start - cut && behind[k].end == all[k + 1].end - cut && behind[k].replacement == all[k
        + 1].replacement by {
        assert(matcher::literal_starts(text, pat, 0)[k + 1] == cut + matcher::literal_starts(
            tail,
            pat,
            0,
        )[k]);
    }
    let used = spans::limited(all, limit);
    let rest = if limit == 1 {
        Seq::empty()
    } else {
        spans::limited(
            behind,
            if limit == 0 {
                0
            } else {
                limit - 1
            },
        )
    };
    assert(used.len() == rest.len() + 1);
    assert forall|k: int| 0 <= k < rest.len() implies (#[trigger] rest[k]).start == used[k
        + 1].start - cut && rest[k].end == used[k + 1].end - cut && rest[k].replacement == used[k
        + 1].replacement by {
        assert(rest[k] == behind[k]);
        assert(used[k + 1] == all[k + 1]);
    }
    assert(used[0] == all[0]);
    assert(all[0].start == i && all[0].end == cut);
    assert(spans::spans_ok(text.len(), used)) by {
        assert forall|k: int, l: int| 0 <= k < l < used.len() implies (#[trigger] used[k]).end <= (
        #[trigger] used[l]).start by {
            assert(all[k].end <= all[l].start);
        }
        assert forall|k: int| 0 <= k < used.len() implies 0 <= (#[trigger] used[k]).start
            <= used[k].end <= text.len() by {
            assert(all[k].start <= all[k].end);
        }
    }
    let n = used.len() as int;
    lemma_splice_rest(text, used, rest, cut, n);
    let r = spans::resume_at(rest, n - 1);
    if n > 1 {
        assert(rest[n - 2].end == used[n - 1].end - cut);
        assert(used[0].end <= used[n - 1].start);
    }
    assert(text.skip(spans::resume_at(used, n)) =~= tail.skip(r));
    let lead = text.take(i) + replacement;
    let inner = spans::spliced_prefix(tail, rest, n - 1);
    assert((lead + inner) + tail.skip(r) =~= lead + (inner + tail.skip(r)));
    if limit == 1 {
        assert(inner =~= Seq::<char>::empty());
        assert(inner + tail.skip(r) =~= tail);
    }
}

/// A text that does not hold a literal stays as it is when it is replaced.
pub proof fn law_nothing_to_replace(
    text: Seq<char>,
    pat: Seq<char>,
    replacement: Seq<char>,
    limit: int,
)
    requires
        forall|i: int| !matcher::occurs_at(text, pat, i),
    ensures
        replaced(text, pat, replacement, limit) == text,
{
    let m = MatcherView::Literal { pattern: pat };
    matcher::lemma_literal_spans(text, pat, replacement);
    assert(m.spans(text, replacement).len() == 0);
    assert(replaced(text, pat, replacement, limit) =~= text);
}

// ---------------------------------------------------------------------------
// Any pattern
// ---------------------------------------------------------------------------

/// Replacing changes nothing outside the matches: what stands before the first
/// one starts the result, and what stands behind the last one ends it.
pub proof fn law_splice_keeps_the_ends(text: Seq<char>, sp: Seq<Span>)
    requires
        spans::spans_ok(text.len(), sp),
    ensures
        sp.len() == 0 ==> spans::splice(text, sp) == text,
        sp.len() > 0 ==> {
            let out = spans::splice(text, sp);
            let last = sp[sp.len() - 1].end;
            &&& text.take(sp[0].start).is_prefix_of(out)
            &&& out.len() >= text.len() - last
            &&& out.skip(out.len() - (text.len() - last)) == text.skip(last)
        },
{
    let out = spans::splice(text, sp);
    if sp.len() == 0 {
        assert(out =~= text);
    } else {
        lemma_prefix_stays(text, sp, sp.len() as int);
        let last = sp[sp.len() - 1].end;
        let lead = spans::spliced_prefix(text, sp, sp.len() as int);
        assert(out == lead + text.skip(last));
        assert(out.skip(out.len() - (text.len() - last)) =~= text.skip(last));
        assert(out.take(sp[0].start) =~= lead.take(sp[0].start));
    }
}

proof fn lemma_prefix_stays(text: Seq<char>, sp: Seq<Span>, n: int)
    requires
        spans::spans_ok(text.len(), sp),
        0 < n <= sp.len(),
    ensures
        sp[0].start <= spans::spliced_prefix(text, sp, n).len(),
        spans::spliced_prefix(text, sp, n).take(sp[0].start) == text.take(sp[0].start),
    decreases n,
{
    reveal_with_fuel(spans::spliced_prefix, 2);
    assert(sp[0].start <= sp[0].end <= text.len());
    if n > 1 {
        lemma_prefix_stays(text, sp, n - 1);
        let before = spans::spliced_prefix(text, sp, n - 1);
        assert(spans::spliced_prefix(text, sp, n).take(sp[0].start) =~= before.take(sp[0].start));
    } else {
        assert(spans::spliced_prefix(text, sp, 1).take(sp[0].start) =~= text.take(sp[0].start));
    }
}

/// A limit uses that many matches from the left, or all where there are fewer;
/// 0 is no limit.
pub proof fn law_limit_takes_the_first(sp: Seq<Span>, limit: int)
    requires
        0 <= limit,
    ensures
        spans::limited(sp, limit).is_prefix_of(sp),
        limit == 0 ==> spans::limited(sp, limit) == sp,
        limit > 0 ==> spans::limited(sp, limit).len() == if limit < sp.len() {
            limit
        } else {
            sp.len() as int
        },
{
    assert(sp.take(sp.len() as int) =~= sp);
}

} // verus!
