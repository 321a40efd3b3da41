//! Literals that are looked for as they are or in either case.
//!
//! In either case a literal is left to the regex engine; what it finds are
//! still the places where each character of the literal stands.
use vstd::prelude::*;

use crate::matcher;
use crate::matcher::MatcherView;
use crate::offsets;
use crate::operation::OpView;
use crate::rex;
use crate::spans;
use crate::spans::Span;

verus! {

/// A literal, and whether case does not matter.
#[verifier::ext_equal]
pub struct Needle {
    pub pat: Seq<char>,
    pub folded: bool,
}

/// The literal that an operation looks for.
pub open spec fn needle_of(op: OpView) -> Needle {
    Needle { pat: op.find, folded: op.case_insensitive }
}

/// Whether a character of a text is one of the literal.
pub open spec fn is_same(n: Needle, c: char, d: char) -> bool {
    if n.folded {
        rex::folds_alike(c, d)
    } else {
        c == d
    }
}

/// Whether a literal stands at position `i` of `text`.
pub open spec fn stands_at(n: Needle, text: Seq<char>, i: int) -> bool {
    &&& 0 <= i
    &&& i + n.pat.len() <= text.len()
    &&& forall|k: int| #![trigger n.pat[k]]
        0 <= k < n.pat.len() ==> is_same(n, n.pat[k], text[i + k])
}

/// Where a literal stands from `from` on, left to right and without overlap.
pub open spec fn starts(n: Needle, text: Seq<char>, from: int) -> Seq<int>
    decreases text.len() + 1 - from,
{
    if from < 0 || from + n.pat.len() > text.len() {
        Seq::empty()
    } else if stands_at(n, text, from) {
        seq![from] + starts(n, text, from + matcher::match_step(n.pat))
    } else {
        starts(n, text, from + 1)
    }
}

/// What a matched text is replaced by.
pub open spec fn replaced_by(n: Needle, matched: Seq<char>, replacement: Seq<char>) -> Seq<char> {
    if n.folded {
        rex::regex_expansion(rex::folded_source(n.pat), matched, 0, replacement)
    } else {
        replacement
    }
}

/// The match at position `i`.
pub open spec fn span_at(n: Needle, text: Seq<char>, replacement: Seq<char>, i: int) -> Span {
    Span {
        start: i,
        end: i + n.pat.len(),
        replacement: replaced_by(n, text.subrange(i, i + n.pat.len()), replacement),
    }
}

/// The matches of a literal in a text.
pub open spec fn needle_spans(n: Needle, text: Seq<char>, replacement: Seq<char>) -> Seq<Span> {
    starts(n, text, 0).map_values(|i: int| span_at(n, text, replacement, i))
}

/// Whether a matcher looks for a literal.
pub open spec fn looks_for(m: MatcherView, n: Needle) -> bool {
    if n.folded {
        m == (MatcherView::Regex { source: rex::folded_source(n.pat) }) && rex::finds_folded(
            rex::folded_source(n.pat),
            n.pat,
        )
    } else {
        m == (MatcherView::Literal { pattern: n.pat })
    }
}

/// Where a literal stands as it is.
proof fn lemma_exact(n: Needle, text: Seq<char>, i: int)
    requires
        !n.folded,
    ensures
        stands_at(n, text, i) == matcher::occurs_at(text, n.pat, i),
{
    if 0 <= i && i + n.pat.len() <= text.len() {
        let there = text.subrange(i, i + n.pat.len());
        if stands_at(n, text, i) {
            assert(there =~= n.pat);
        }
        if there == n.pat {
            assert forall|k: int| 0 <= k < n.pat.len() implies is_same(
                n,
                #[trigger] n.pat[k],
                text[i + k],
            ) by {
                assert(there[k] == text[i + k]);
            }
        }
    }
}

/// The places where a literal stands are those that the matcher reports.
proof fn lemma_starts_are(n: Needle, text: Seq<char>, from: int)
    ensures
        !n.folded ==> starts(n, text, from) == matcher::literal_starts(text, n.pat, from),
        n.folded ==> starts(n, text, from) == rex::folded_starts(text, n.pat, from),
    decreases text.len() + 1 - from,
{
    if from < 0 || from + n.pat.len() > text.len() {
    } else {
        if !n.folded {
            lemma_exact(n, text, from);
        }
        if stands_at(n, text, from) {
            lemma_starts_are(n, text, from + matcher::match_step(n.pat));
        } else {
            lemma_starts_are(n, text, from + 1);
        }
    }
}

/// Nothing stands between `from` and `to`, so the matches from either are the same.
pub proof fn lemma_starts_skip(n: Needle, text: Seq<char>, from: int, to: int)
    requires
        0 <= from <= to,
        forall|j: int| from <= j < to ==> !stands_at(n, text, j),
    ensures
        starts(n, text, from) == starts(n, text, to),
    decreases to - from,
{
    if from < to {
        if from + n.pat.len() <= text.len() {
            lemma_starts_skip(n, text, from + 1, to);
        } else {
            assert(starts(n, text, from) =~= Seq::<int>::empty());
            assert(starts(n, text, to) =~= Seq::<int>::empty());
        }
    }
}

/// The literal stands where it is said to, in order and a step apart.
pub proof fn lemma_starts(n: Needle, text: Seq<char>, from: int)
    requires
        0 <= from,
    ensures
        forall|k: int| #![trigger starts(n, text, from)[k]]
            0 <= k < starts(n, text, from).len() ==> from <= starts(n, text, from)[k] && stands_at(
                n,
                text,
                starts(n, text, from)[k],
            ),
        forall|k: int, l: int| #![trigger starts(n, text, from)[k], starts(n, text, from)[l]]
            0 <= k < l < starts(n, text, from).len() ==> starts(n, text, from)[k]
                + matcher::match_step(n.pat) <= starts(n, text, from)[l],
        starts(n, text, from).len() == 0 <==> (forall|j: int| from <= j ==> !stands_at(n, text, j)),
    decreases text.len() + 1 - from,
{
    let all = starts(n, text, from);
    if from + n.pat.len() > text.len() {
    } else if stands_at(n, text, from) {
        let next = from + matcher::match_step(n.pat);
        lemma_starts(n, text, next);
        let rest = starts(n, text, next);
        assert(all =~= seq![from] + rest);
        assert forall|k: int| 0 <= k < all.len() implies from <= #[trigger] all[k] && stands_at(
            n,
            text,
            all[k],
        ) by {
            if k > 0 {
                assert(all[k] == rest[k - 1]);
            }
        }
        assert forall|k: int, l: int| 0 <= k < l < all.len() implies #[trigger] all[k]
            + matcher::match_step(n.pat) <= #[trigger] all[l] by {
            assert(all[l] == rest[l - 1]);
            if k > 0 {
                assert(all[k] == rest[k - 1]);
            }
        }
        assert(all.len() > 0);
    } else {
        lemma_starts(n, text, from + 1);
        if forall|j: int| from + 1 <= j ==> !stands_at(n, text, j) {
            assert forall|j: int| from <= j implies !stands_at(n, text, j) by {
                if j != from {
                }
            }
        }
    }
}

/// The matches of a literal are in order and inside the text.
pub proof fn lemma_needle_spans_ok(n: Needle, text: Seq<char>, replacement: Seq<char>)
    ensures
        spans::spans_ok(text.len(), needle_spans(n, text, replacement)),
{
    lemma_starts(n, text, 0);
    let at = starts(n, text, 0);
    let sp = needle_spans(n, text, replacement);
    assert forall|k: int| 0 <= k < sp.len() implies 0 <= (#[trigger] sp[k]).start <= sp[k].end
        <= text.len() by {
        assert(sp[k].start == at[k]);
    }
    assert forall|k: int, l: int| 0 <= k < l < sp.len() implies (#[trigger] sp[k]).end <= (
    #[trigger] sp[l]).start by {
        assert(sp[k].start == at[k]);
        assert(sp[l].start == at[l]);
    }
}

/// A matcher that looks for a literal reports where the literal stands.
pub proof fn lemma_needle_spans(m: MatcherView, n: Needle, text: Seq<char>, replacement: Seq<char>)
    requires
        looks_for(m, n),
    ensures
        m.spans(text, replacement) == needle_spans(n, text, replacement),
        m.is_match(text) <==> starts(n, text, 0).len() > 0,
{
    lemma_starts_are(n, text, 0);
    let at = starts(n, text, 0);
    let sp = needle_spans(n, text, replacement);
    if n.folded {
        let source = rex::folded_source(n.pat);
        lemma_starts(n, text, 0);
        reveal(rex::finds_folded);
        assert(rex::regex_ranges(source, text).len() == at.len());
        assert forall|k: int| 0 <= k < at.len() implies #[trigger] matcher::regex_spans(
            source,
            text,
            replacement,
        )[k] == sp[k] by {
            let i = at[k];
            let j = at[k] + n.pat.len();
            assert(stands_at(n, text, i));
            assert(rex::regex_ranges(source, text)[k] == (
                offsets::byte_pos(text, i),
                offsets::byte_pos(text, j),
            ));
            lemma_char_pos(text, i);
            lemma_char_pos(text, j);
            assert(rex::regex_expansion(source, text, k, replacement) == rex::regex_expansion(
                source,
                text.subrange(i, j),
                0,
                replacement,
            ));
        }
        assert(matcher::regex_spans(source, text, replacement) =~= sp);
    } else {
        matcher::lemma_literal_spans(text, n.pat, replacement);
        assert(matcher::literal_spans(text, n.pat, replacement) =~= sp);
    }
}

/// The character at the byte offset of a position is at that position.
proof fn lemma_char_pos(text: Seq<char>, i: int)
    requires
        0 <= i <= text.len(),
    ensures
        matcher::char_pos(text, offsets::byte_pos(text, i)) == i,
{
    let p = offsets::byte_pos(text, i);
    let j = matcher::char_pos(text, p);
    assert(0 <= j <= text.len() && offsets::byte_pos(text, j) == p);
    offsets::lemma_byte_pos_injective(text, i, j);
}

/// Whether a pattern holds nothing that means more than itself in a regular
/// expression.
pub open spec fn is_plain(pat: Seq<char>) -> bool {
    forall|k: int| 0 <= k < pat.len() ==> !rex::is_meta(#[trigger] pat[k])
}

/// A plain pattern is escaped by nothing.
pub proof fn lemma_plain_is_escaped(pat: Seq<char>)
    requires
        is_plain(pat),
    ensures
        rex::escaped(pat) == pat,
    decreases pat.len(),
{
    if pat.len() > 0 {
        assert(!rex::is_meta(pat[pat.len() - 1]));
        assert forall|k: int| 0 <= k < pat.drop_last().len() implies !rex::is_meta(
            #[trigger] pat.drop_last()[k],
        ) by {
            assert(!rex::is_meta(pat[k]));
        }
        lemma_plain_is_escaped(pat.drop_last());
        assert(pat.drop_last().push(pat.last()) =~= pat);
    } else {
        assert(rex::escaped(pat) =~= pat);
    }
}

/// A text in lower case, as far as it is ASCII.
pub open spec fn lowered(s: Seq<char>) -> Seq<char> {
    s.map_values(|c: char| rex::ascii_lower(c))
}

/// Among texts of ASCII, a literal that is looked for in either case is found
/// just where its lower case stands in the lower case of the text.
pub proof fn law_either_case_is_lower_case(m: MatcherView, pat: Seq<char>, text: Seq<char>)
    requires
        looks_for(m, Needle { pat, folded: true }),
        forall|k: int| 0 <= k < pat.len() ==> rex::is_ascii(#[trigger] pat[k]),
        forall|k: int| 0 <= k < text.len() ==> rex::is_ascii(#[trigger] text[k]),
    ensures
        m.is_match(text) <==> matcher::contains(lowered(text), lowered(pat)),
{
    let n = Needle { pat, folded: true };
    lemma_needle_spans(m, n, text, Seq::empty());
    lemma_starts(n, text, 0);
    assert forall|i: int| stands_at(n, text, i) == matcher::occurs_at(
        lowered(text),
        lowered(pat),
        i,
    ) by {
        reveal(rex::finds_folded);
        if 0 <= i && i + pat.len() <= text.len() {
            let there = lowered(text).subrange(i, i + pat.len());
            if stands_at(n, text, i) {
                assert forall|k: int| 0 <= k < pat.len() implies there[k] == lowered(pat)[k] by {
                    assert(is_same(n, n.pat[k], text[i + k]));
                }
                assert(there =~= lowered(pat));
            }
            if there == lowered(pat) {
                assert forall|k: int| 0 <= k < n.pat.len() implies is_same(
                    n,
                    #[trigger] n.pat[k],
                    text[i + k],
                ) by {
                    assert(there[k] == lowered(pat)[k]);
                    assert(rex::folds_alike(pat[k], text[i + k]) == (rex::ascii_lower(pat[k])
                        == rex::ascii_lower(text[i + k])));
                }
            }
        }
    }
    if m.is_match(text) {
        let i = starts(n, text, 0)[0];
        assert(matcher::occurs_at(lowered(text), lowered(pat), i));
    }
    if matcher::contains(lowered(text), lowered(pat)) {
        let i = choose|i: int| matcher::occurs_at(lowered(text), lowered(pat), i);
        assert(stands_at(n, text, i));
    }
}

} // verus!
