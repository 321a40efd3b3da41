//! Match spans and splicing replacements into a text.
use vstd::prelude::*;

use crate::offsets;
use crate::offsets::slice_str;

verus! {

/// One match: its byte span in the original text and its replacement, with
/// capture references expanded.
#[derive(Debug, Clone, PartialEq, Eq)]
pub struct MatchSpan {
    /// Byte offset of the match start in the original text.
    pub start: usize,
    /// Byte offset one past the match end in the original text.
    pub end: usize,
    /// The replacement text.
    pub replacement: String,
}

/// One match, by character positions.
#[verifier::ext_equal]
pub struct Span {
    pub start: int,
    pub end: int,
    pub replacement: Seq<char>,
}

/// Spans inside a text of `len` characters, in order and without overlap.
pub open spec fn spans_ok(len: nat, spans: Seq<Span>) -> bool {
    &&& forall|k: int| #![trigger spans[k]]
        0 <= k < spans.len() ==> 0 <= spans[k].start <= spans[k].end <= len
    &&& forall|k: int, l: int| #![trigger spans[k], spans[l]]
        0 <= k < l < spans.len() ==> spans[k].end <= spans[l].start
}

/// Whether byte spans of `text` stand for character spans.
pub open spec fn spans_match(text: Seq<char>, v: Seq<MatchSpan>, spans: Seq<Span>) -> bool {
    &&& v.len() == spans.len()
    &&& forall|k: int| #![trigger v[k]] #![trigger spans[k]]
        0 <= k < v.len() ==> {
            &&& v[k].start == offsets::byte_pos(text, spans[k].start)
            &&& v[k].end == offsets::byte_pos(text, spans[k].end)
            &&& v[k].replacement@ == spans[k].replacement
        }
}

/// Where the text after the first `n` spans starts.
pub open spec fn resume_at(spans: Seq<Span>, n: int) -> int {
    if n <= 0 {
        0
    } else {
        spans[n - 1].end
    }
}

/// The text up to the end of span `n - 1`, with the first `n` spans replaced.
pub open spec fn spliced_prefix(text: Seq<char>, spans: Seq<Span>, n: int) -> Seq<char>
    decreases n,
{
    if n <= 0 {
        Seq::empty()
    } else {
        spliced_prefix(text, spans, n - 1) + text.subrange(
            resume_at(spans, n - 1),
            spans[n - 1].start,
        ) + spans[n - 1].replacement
    }
}

/// The text with every span replaced and everything else untouched.
pub open spec fn splice(text: Seq<char>, spans: Seq<Span>) -> Seq<char> {
    spliced_prefix(text, spans, spans.len() as int) + text.skip(
        resume_at(spans, spans.len() as int),
    )
}

/// At most `limit` spans; 0 means all of them.
pub open spec fn limited(spans: Seq<Span>, limit: int) -> Seq<Span> {
    if limit <= 0 || limit >= spans.len() {
        spans
    } else {
        spans.take(limit)
    }
}

/// The spans behind the first `k` do not matter for the prefix up to `n <= k`.
pub proof fn lemma_spliced_prefix_take(text: Seq<char>, spans: Seq<Span>, k: int, n: int)
    requires
        0 <= n <= k <= spans.len(),
    ensures
        spliced_prefix(text, spans.take(k), n) == spliced_prefix(text, spans, n),
        resume_at(spans.take(k), n) == resume_at(spans, n),
    decreases n,
{
    if n > 0 {
        lemma_spliced_prefix_take(text, spans, k, n - 1);
    }
}

/// Replaces the first `n` spans in a text.
pub(crate) fn splice_spans(text: &str, v: &Vec<MatchSpan>, n: usize, spans: Ghost<Seq<Span>>) -> (r: String)
    requires
        spans_ok(text@.len(), spans@),
        spans_match(text@, v@, spans@),
        n <= v@.len(),
    ensures
        r@ == splice(text@, spans@.take(n as int)),
{
    let ghost s = text@;
    let total = text.as_bytes().len();
    let mut out = String::new();
    let mut last: usize = 0;
    let mut i: usize = 0;
    proof {
        offsets::lemma_byte_pos_ends(s);
    }
    while i < n
        invariant
            s == text@,
            spans_ok(s.len(), spans@),
            spans_match(s, v@, spans@),
            i <= n <= v@.len(),
            0 <= resume_at(spans@, i as int) <= s.len(),
            last == offsets::byte_pos(s, resume_at(spans@, i as int)),
            out@ == spliced_prefix(s, spans@, i as int),
        decreases n - i,
    {
        let span = &v[i];
        let ghost from = resume_at(spans@, i as int);
        proof {
            assert(spans@[i as int].start >= from);
        }
        let piece = slice_str(text, last, span.start, Ghost(from), Ghost(spans@[i as int].start));
        out.append(piece);
        out.append(span.replacement.as_str());
        last = span.end;
        i += 1;
    }
    let tail = slice_str(
        text,
        last,
        total,
        Ghost(resume_at(spans@, n as int)),
        Ghost(s.len() as int),
    );
    out.append(tail);
    proof {
        lemma_spliced_prefix_take(s, spans@, n as int, n as int);
        assert(s.subrange(resume_at(spans@, n as int), s.len() as int) =~= s.skip(
            resume_at(spans@, n as int),
        ));
    }
    out
}

} // verus!
