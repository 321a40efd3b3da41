//! Literal and regular-expression matching behind one interface.
use vstd::prelude::*;
use vstd::utf8::*;

use crate::error;
use crate::error::RipsedError;
use crate::needles;
use crate::offsets;
use crate::offsets::slice_str;
use crate::operation::{Op, OpView};
use crate::rex;
use crate::rex::{capture_spans, error_text};
use crate::spans;
use crate::spans::{splice_spans, MatchSpan, Span};
use crate::strings;
use crate::strings::owned;

verus! {

/// Whether `pat` stands at position `i` of `text`.
pub open spec fn occurs_at(text: Seq<char>, pat: Seq<char>, i: int) -> bool {
    0 <= i && i + pat.len() <= text.len() && text.subrange(i, i + pat.len()) == pat
}

/// Whether `pat` stands anywhere in `text`.
pub open spec fn contains(text: Seq<char>, pat: Seq<char>) -> bool {
    exists|i: int| occurs_at(text, pat, i)
}

/// `str::find` returns the byte offset of the first occurrence of a text in
/// another, or `None` where there is none.
#[verifier::external_body]
pub(crate) fn find_str(haystack: &str, needle: &str) -> (r: Option<usize>)
    ensures
        match r {
            Some(p) => exists|i: int| {
                &&& #[trigger] occurs_at(haystack@, needle@, i)
                &&& p == offsets::byte_pos(haystack@, i)
                &&& forall|j: int| 0 <= j < i ==> !occurs_at(haystack@, needle@, j)
            },
            None => !contains(haystack@, needle@),
        },
{
    haystack.find(needle)
}

/// How far the search for the next match goes on behind a match of `pat`.
pub open spec fn match_step(pat: Seq<char>) -> int {
    if pat.len() == 0 {
        1
    } else {
        pat.len() as int
    }
}

/// Where the non-overlapping matches of a literal start, from `from` on, left to right.
pub open spec fn literal_starts(text: Seq<char>, pat: Seq<char>, from: int) -> Seq<int>
    decreases text.len() + 1 - from,
{
    if from < 0 || from + pat.len() > text.len() {
        Seq::empty()
    } else if occurs_at(text, pat, from) {
        seq![from] + literal_starts(text, pat, from + match_step(pat))
    } else {
        literal_starts(text, pat, from + 1)
    }
}

/// The spans of a literal in a text.
pub open spec fn literal_spans(text: Seq<char>, pat: Seq<char>, replacement: Seq<char>) -> Seq<Span> {
    literal_starts(text, pat, 0).map_values(
        |i: int| Span { start: i, end: i + pat.len(), replacement },
    )
}

/// The character position at byte offset `p`.
pub open spec fn char_pos(text: Seq<char>, p: int) -> int {
    choose|i: int| 0 <= i <= text.len() && #[trigger] offsets::byte_pos(text, i) == p
}

/// The spans of a regular expression in a text.
pub open spec fn regex_spans(source: Seq<char>, text: Seq<char>, replacement: Seq<char>) -> Seq<Span> {
    Seq::new(
        rex::regex_ranges(source, text).len(),
        |k: int|
            Span {
                start: char_pos(text, rex::regex_ranges(source, text)[k].0),
                end: char_pos(text, rex::regex_ranges(source, text)[k].1),
                replacement: rex::regex_expansion(source, text, k, replacement),
            },
    )
}

/// What a matcher looks for.
#[verifier::ext_equal]
pub enum MatcherView {
    Literal { pattern: Seq<char> },
    Regex { source: Seq<char> },
}

impl MatcherView {
    /// Whether the matcher finds anything in `text`.
    pub open spec fn is_match(self, text: Seq<char>) -> bool {
        match self {
            MatcherView::Literal { pattern } => contains(text, pattern),
            MatcherView::Regex { source } => rex::regex_matches(source, text),
        }
    }

    /// The matches in `text` and their replacements, left to right.
    pub open spec fn spans(self, text: Seq<char>, replacement: Seq<char>) -> Seq<Span> {
        match self {
            MatcherView::Literal { pattern } => literal_spans(text, pattern, replacement),
            MatcherView::Regex { source } => regex_spans(source, text, replacement),
        }
    }
}

/// The source that an operation's pattern is compiled from, where it is compiled.
pub open spec fn compiled_source(op: OpView) -> Seq<char> {
    let base = if op.regex {
        op.find
    } else {
        rex::escaped(op.find)
    };
    if op.case_insensitive {
        "(?i)"@ + base
    } else {
        base
    }
}

/// Whether an operation's pattern is compiled: regular expressions are, and so
/// are literals that match in either case.
pub open spec fn is_compiled(op: OpView) -> bool {
    op.regex || op.case_insensitive
}

/// What the matcher of an operation looks for.
pub open spec fn matcher_of(op: OpView) -> MatcherView {
    if is_compiled(op) {
        MatcherView::Regex { source: compiled_source(op) }
    } else {
        MatcherView::Literal { pattern: op.find }
    }
}

/// The error of a pattern that does not compile.
pub open spec fn bad_pattern(op: OpView, e: regex::Error) -> error::ErrorView {
    error::ErrorView {
        operation_index: None,
        ..error::invalid_regex_error(0, op.find, rex::regex_error_text(e))
    }
}

/// Literal and regular-expression matching.
#[derive(Debug)]
pub enum Matcher {
    Literal { pattern: String },
    /// Regular expressions, and literals that match in either case: those are
    /// escaped and left to the regex engine, which knows Unicode case.
    Regex(regex::Regex),
}

impl View for Matcher {
    type V = MatcherView;

    open spec fn view(&self) -> MatcherView {
        match *self {
            Matcher::Literal { pattern } => MatcherView::Literal { pattern: pattern@ },
            Matcher::Regex(re) => MatcherView::Regex { source: rex::regex_source(re) },
        }
    }
}

/// Nothing starts between `from` and `to`, so the matches from either are the same.
pub proof fn lemma_literal_starts_skip(text: Seq<char>, pat: Seq<char>, from: int, to: int)
    requires
        0 <= from <= to,
        forall|j: int| from <= j < to ==> !occurs_at(text, pat, j),
    ensures
        literal_starts(text, pat, from) == literal_starts(text, pat, to),
    decreases to - from,
{
    if from < to {
        if from + pat.len() <= text.len() {
            lemma_literal_starts_skip(text, pat, from + 1, to);
        } else {
            assert(literal_starts(text, pat, from) =~= Seq::<int>::empty());
            assert(literal_starts(text, pat, to) =~= Seq::<int>::empty());
        }
    }
}

/// Matches occur where they are said to start, in order and a step apart.
pub proof fn lemma_literal_starts(text: Seq<char>, pat: Seq<char>, from: int)
    requires
        0 <= from,
    ensures
        forall|k: int| #![trigger literal_starts(text, pat, from)[k]]
            0 <= k < literal_starts(text, pat, from).len() ==> from <= literal_starts(
                text,
                pat,
                from,
            )[k] && occurs_at(text, pat, literal_starts(text, pat, from)[k]),
        forall|k: int, l: int|
            #![trigger literal_starts(text, pat, from)[k], literal_starts(text, pat, from)[l]]
            0 <= k < l < literal_starts(text, pat, from).len() ==> literal_starts(
                text,
                pat,
                from,
            )[k] + match_step(pat) <= literal_starts(text, pat, from)[l],
        literal_starts(text, pat, from).len() == 0 <==> (forall|j: int|
            from <= j ==> !occurs_at(text, pat, j)),
    decreases text.len() + 1 - from,
{
    let all = literal_starts(text, pat, from);
    if from + pat.len() > text.len() {
    } else if occurs_at(text, pat, from) {
        let next = from + match_step(pat);
        lemma_literal_starts(text, pat, next);
        let rest = literal_starts(text, pat, next);
        assert(all =~= seq![from] + rest);
        assert forall|k: int| 0 <= k < all.len() implies from <= #[trigger] all[k] && occurs_at(
            text,
            pat,
            all[k],
        ) by {
            if k > 0 {
                assert(all[k] == rest[k - 1]);
            }
        }
        assert forall|k: int, l: int| 0 <= k < l < all.len() implies #[trigger] all[k] + match_step(
            pat,
        ) <= #[trigger] all[l] by {
            assert(all[l] == rest[l - 1]);
            if k > 0 {
                assert(all[k] == rest[k - 1]);
            }
        }
        assert(all.len() > 0);
    } else {
        lemma_literal_starts(text, pat, from + 1);
        if forall|j: int| from + 1 <= j ==> !occurs_at(text, pat, j) {
            assert forall|j: int| from <= j implies !occurs_at(text, pat, j) by {
                if j != from {
                }
            }
        }
    }
}

/// The spans of a literal are in order and inside the text; there is one
/// exactly where the literal occurs.
pub proof fn lemma_literal_spans(text: Seq<char>, pat: Seq<char>, replacement: Seq<char>)
    ensures
        spans::spans_ok(text.len(), literal_spans(text, pat, replacement)),
        literal_spans(text, pat, replacement).len() > 0 <==> contains(text, pat),
{
    lemma_literal_starts(text, pat, 0);
    let starts = literal_starts(text, pat, 0);
    let sp = literal_spans(text, pat, replacement);
    assert forall|k: int| 0 <= k < sp.len() implies 0 <= (#[trigger] sp[k]).start <= sp[k].end
        <= text.len() by {
        assert(sp[k].start == starts[k]);
    }
    assert forall|k: int, l: int| 0 <= k < l < sp.len() implies (#[trigger] sp[k]).end <= (
    #[trigger] sp[l]).start by {
        assert(sp[k].start == starts[k]);
        assert(sp[l].start == starts[l]);
    }
    if contains(text, pat) {
        let i = choose|i: int| occurs_at(text, pat, i);
        assert(0 <= i);
        if starts.len() == 0 {
            assert(!occurs_at(text, pat, i));
        }
    } else {
        if starts.len() > 0 {
            assert(occurs_at(text, pat, starts[0]));
        }
    }
}

/// Ranges on character boundaries are character spans.
pub proof fn lemma_regex_spans(source: Seq<char>, text: Seq<char>, replacement: Seq<char>)
    requires
        rex::ranges_ok(text, rex::regex_ranges(source, text)),
    ensures
        spans::spans_ok(text.len(), regex_spans(source, text, replacement)),
        forall|k: int| #![trigger regex_spans(source, text, replacement)[k]]
            0 <= k < regex_spans(source, text, replacement).len() ==> {
                &&& offsets::byte_pos(text, regex_spans(source, text, replacement)[k].start)
                    == rex::regex_ranges(source, text)[k].0
                &&& offsets::byte_pos(text, regex_spans(source, text, replacement)[k].end)
                    == rex::regex_ranges(source, text)[k].1
            },
{
    let ranges = rex::regex_ranges(source, text);
    let sp = regex_spans(source, text, replacement);
    assert forall|k: int| 0 <= k < sp.len() implies {
        &&& 0 <= (#[trigger] sp[k]).start <= sp[k].end <= text.len()
        &&& offsets::byte_pos(text, sp[k].start) == ranges[k].0
        &&& offsets::byte_pos(text, sp[k].end) == ranges[k].1
    } by {
        let i = offsets::lemma_boundary_index(text, ranges[k].0);
        let j = offsets::lemma_boundary_index(text, ranges[k].1);
        assert(offsets::byte_pos(text, i) == ranges[k].0);
        assert(offsets::byte_pos(text, j) == ranges[k].1);
        offsets::lemma_byte_pos_injective(text, sp[k].start, sp[k].end);
    }
    assert forall|k: int, l: int| 0 <= k < l < sp.len() implies (#[trigger] sp[k]).end <= (
    #[trigger] sp[l]).start by {
        assert(ranges[k].1 <= ranges[l].0);
        offsets::lemma_byte_pos_injective(text, sp[l].start, sp[k].end);
    }
}

/// How many bytes a character takes.
fn char_width(c: char) -> (w: usize)
    ensures
        w == encode_scalar(c as u32).len(),
{
    let u = c as u32;
    if u < 0x80 {
        1
    } else if u < 0x800 {
        2
    } else if u < 0x10000 {
        3
    } else {
        4
    }
}

/// The spans of the empty literal: one at every character boundary.
fn find_empty(text: &str, replacement: &str) -> (r: Vec<MatchSpan>)
    ensures
        spans::spans_match(text@, r@, literal_spans(text@, Seq::empty(), replacement@)),
{
    let ghost s = text@;
    let ghost pat = Seq::<char>::empty();
    let chars = strings::chars_of(text);
    let total = text.as_bytes().len();
    let mut out: Vec<MatchSpan> = Vec::new();
    let mut pos: usize = 0;
    let mut i: usize = 0;
    proof {
        offsets::lemma_byte_pos_ends(s);
        lemma_literal_starts(s, pat, 0);
        assert(s.subrange(0, 0) =~= pat);
        assert(literal_starts(s, pat, 0).len() > 0) by {
            assert(occurs_at(s, pat, 0));
        }
        lemma_empty_starts(s, 0);
    }
    while i < chars.len()
        invariant
            s == text@,
            chars@ == s,
            total == encode_utf8(s).len(),
            i <= s.len(),
            pos == offsets::byte_pos(s, i as int),
            out@.len() == i,
            forall|k: int| #![trigger out@[k]]
                0 <= k < i ==> out@[k].start == offsets::byte_pos(s, k) && out@[k].end
                    == offsets::byte_pos(s, k) && out@[k].replacement@ == replacement@,
        decreases s.len() - i,
    {
        let c = chars[i];
        let w = char_width(c);
        proof {
            offsets::lemma_slice(s, i as int, i + 1);
            assert(s.subrange(i as int, i + 1) =~= seq![c]);
            offsets::lemma_encode_one(c);
            offsets::lemma_slice(s, i + 1, s.len() as int);
            offsets::lemma_byte_pos_ends(s);
        }
        out.push(MatchSpan { start: pos, end: pos, replacement: owned(replacement) });
        pos += w;
        i += 1;
    }
    out.push(MatchSpan { start: pos, end: pos, replacement: owned(replacement) });
    proof {
        let sp = literal_spans(s, pat, replacement@);
        assert(sp.len() == s.len() + 1);
        assert forall|k: int| 0 <= k < out@.len() implies (#[trigger] out@[k]).start
            == offsets::byte_pos(s, sp[k].start) && out@[k].end == offsets::byte_pos(s, sp[k].end)
            && out@[k].replacement@ == sp[k].replacement by {
            assert(literal_starts(s, pat, 0)[k] == k);
        }
    }
    out
}

/// The empty literal matches at every position.
proof fn lemma_empty_starts(s: Seq<char>, from: int)
    requires
        0 <= from <= s.len() + 1,
    ensures
        literal_starts(s, Seq::empty(), from) =~= Seq::new(
            (s.len() + 1 - from) as nat,
            |k: int| from + k,
        ),
    decreases s.len() + 1 - from,
{
    let pat = Seq::<char>::empty();
    if from <= s.len() {
        assert(s.subrange(from, from) =~= pat);
        assert(occurs_at(s, pat, from));
        lemma_empty_starts(s, from + 1);
    }
}

/// The spans of a non-empty literal.
fn find_literal(text: &str, pat: &str, replacement: &str) -> (r: Vec<MatchSpan>)
    requires
        pat@.len() > 0,
    ensures
        spans::spans_match(text@, r@, literal_spans(text@, pat@, replacement@)),
{
    let ghost s = text@;
    let ghost p = pat@;
    let total = text.as_bytes().len();
    let width = pat.as_bytes().len();
    let mut out: Vec<MatchSpan> = Vec::new();
    let ghost mut starts: Seq<int> = Seq::empty();
    let mut pos: usize = 0;
    let ghost mut i: int = 0;
    let mut open = true;
    proof {
        offsets::lemma_byte_pos_ends(s);
        offsets::lemma_encode_len(p);
        assert(starts + literal_starts(s, p, 0) =~= literal_starts(s, p, 0));
    }
    while open
        invariant
            s == text@,
            p == pat@,
            p.len() > 0,
            width == encode_utf8(p).len(),
            width > 0,
            total == encode_utf8(s).len(),
            0 <= i <= s.len(),
            pos == offsets::byte_pos(s, i),
            pos <= total,
            starts + (if open {
                literal_starts(s, p, i)
            } else {
                Seq::empty()
            }) == literal_starts(s, p, 0),
            out@.len() == starts.len(),
            forall|k: int| #![trigger out@[k]]
                0 <= k < out@.len() ==> out@[k].start == offsets::byte_pos(s, starts[k])
                    && out@[k].end == offsets::byte_pos(s, starts[k] + p.len())
                    && out@[k].replacement@ == replacement@,
        decreases total - pos + (if open {
            1int
        } else {
            0int
        }),
    {
        proof {
            offsets::lemma_byte_pos_ends(s);
        }
        let tail = slice_str(text, pos, total, Ghost(i), Ghost(s.len() as int));
        proof {
            assert(tail@ =~= s.skip(i));
        }
        match find_str(tail, pat) {
            Some(off) => {
                let ghost j = choose|j: int|
                    {
                        &&& #[trigger] occurs_at(tail@, p, j)
                        &&& off == offsets::byte_pos(tail@, j)
                        &&& forall|l: int| 0 <= l < j ==> !occurs_at(tail@, p, l)
                    };
                let ghost q = i + j;
                proof {
                    assert(s.subrange(q, q + p.len()) =~= tail@.subrange(j, j + p.len()));
                    assert(occurs_at(s, p, q));
                    assert forall|l: int| i <= l < q implies !occurs_at(s, p, l) by {
                        if occurs_at(s, p, l) {
                            assert(tail@.subrange(l - i, l - i + p.len()) =~= s.subrange(
                                l,
                                l + p.len(),
                            ));
                            assert(occurs_at(tail@, p, l - i));
                        }
                    }
                    lemma_literal_starts_skip(s, p, i, q);
                    offsets::lemma_byte_pos_skip(s, i, j);
                    offsets::lemma_slice(s, q, q + p.len());
                    offsets::lemma_slice(s, q + p.len(), s.len() as int);
                    offsets::lemma_byte_pos_ends(s);
                    offsets::lemma_slice(s, i, q);
                }
                let start: usize = pos + off;
                let end: usize = start + width;
                out.push(MatchSpan { start, end, replacement: owned(replacement) });
                proof {
                    assert(starts + literal_starts(s, p, i) =~= starts.push(q) + literal_starts(
                        s,
                        p,
                        q + p.len(),
                    ));
                    starts = starts.push(q);
                    i = q + p.len();
                }
                pos = end;
            },
            None => {
                open = false;
                proof {
                    lemma_literal_starts(s, p, i);
                    assert forall|l: int| i <= l implies !occurs_at(s, p, l) by {
                        if occurs_at(s, p, l) {
                            assert(tail@.subrange(l - i, l - i + p.len()) =~= s.subrange(
                                l,
                                l + p.len(),
                            ));
                            assert(occurs_at(tail@, p, l - i));
                        }
                    }
                    assert(literal_starts(s, p, i) =~= Seq::<int>::empty());
                }
            },
        }
    }
    proof {
        assert(starts =~= literal_starts(s, p, 0));
    }
    out
}

/// `Regex::replace_all` replaces every match, expanding capture references:
/// the text with the spans that `Regex::captures_iter` reports spliced in.
#[verifier::external_body]
fn regex_replace_all(re: &regex::Regex, text: &str, replacement: &str) -> (r: String)
    ensures
        r@ == spans::splice(text@, regex_spans(rex::regex_source(*re), text@, replacement@)),
{
    re.replace_all(text, replacement).into_owned()
}

impl Matcher {
    /// The matcher of an operation.
    pub fn new(op: &Op) -> (r: Result<Matcher, RipsedError>)
        ensures
            match r {
                Ok(m) => {
                    &&& m@ == matcher_of(op@)
                    &&& is_compiled(op@) ==> rex::regex_compile_error(compiled_source(op@)) is None
                    &&& !op@.regex ==> needles::looks_for(m@, needles::needle_of(op@))
                    &&& op@.case_insensitive && op@.regex ==> m@ == (MatcherView::Regex {
                        source: "(?i)"@ + op@.find,
                    })
                    &&& op@.case_insensitive && !op@.regex ==> m@ == (MatcherView::Regex {
                        source: "(?i)"@ + rex::escaped(op@.find),
                    })
                    &&& !op@.case_insensitive && op@.regex ==> m@ == (MatcherView::Regex {
                        source: op@.find,
                    })
                    &&& !op@.case_insensitive && !op@.regex ==> m@ == (MatcherView::Literal {
                        pattern: op@.find,
                    })
                    &&& op@.case_insensitive && needles::is_plain(op@.find) ==> needles::looks_for(
                        m@,
                        needles::Needle { pat: op@.find, folded: true },
                    )
                },
                Err(e) => is_compiled(op@) && (rex::regex_compile_error(compiled_source(op@))
                    matches Some(cause) && e@ == bad_pattern(op@, cause)),
            },
    {
        let find = op.find_pattern();
        if op.is_regex() || op.is_case_insensitive() {
            let base = if op.is_regex() {
                owned(find)
            } else {
                regex::escape(find)
            };
            let source = if op.is_case_insensitive() {
                let mut s = owned("(?i)");
                s.append(base.as_str());
                s
            } else {
                base
            };
            proof {
                if !op@.regex {
                    assert(source@ == rex::folded_source(op@.find));
                }
                if op@.case_insensitive && needles::is_plain(op@.find) {
                    needles::lemma_plain_is_escaped(op@.find);
                    assert(source@ == rex::folded_source(op@.find));
                }
            }
            match regex::Regex::new(source.as_str()) {
                Ok(re) => Ok(Matcher::Regex(re)),
                Err(e) => {
                    let text = error_text(&e);
                    let mut err = RipsedError::invalid_regex(0, find, text.as_str());
                    err.operation_index = None;
                    Err(err)
                },
            }
        } else {
            Ok(Matcher::Literal { pattern: owned(find) })
        }
    }

    /// Whether the matcher finds anything in a text.
    pub fn is_match(&self, text: &str) -> (b: bool)
        ensures
            b == self@.is_match(text@),
    {
        match self {
            Matcher::Literal { pattern } => {
                match find_str(text, pattern.as_str()) {
                    Some(_) => true,
                    None => false,
                }
            },
            Matcher::Regex(re) => re.is_match(text),
        }
    }

    /// Every non-overlapping match in a text with its expanded replacement,
    /// left to right.
    pub fn find_replacements(&self, text: &str, replacement: &str) -> (r: Vec<MatchSpan>)
        ensures
            spans::spans_match(text@, r@, self@.spans(text@, replacement@)),
            spans::spans_ok(text@.len(), self@.spans(text@, replacement@)),
            self@.spans(text@, replacement@).len() > 0 <==> self@.is_match(text@),
    {
        match self {
            Matcher::Literal { pattern } => {
                proof {
                    lemma_literal_spans(text@, pattern@, replacement@);
                }
                if pattern.as_str().is_empty() {
                    proof {
                        assert(pattern@ =~= Seq::<char>::empty());
                    }
                    find_empty(text, replacement)
                } else {
                    find_literal(text, pattern.as_str(), replacement)
                }
            },
            Matcher::Regex(re) => {
                let r = capture_spans(re, text, replacement);
                proof {
                    let source = rex::regex_source(*re);
                    assert(Seq::new(
                        r@.len(),
                        |k: int| (r@[k].start as int, r@[k].end as int),
                    ) =~= rex::regex_ranges(source, text@)) by {
                        assert forall|k: int| 0 <= k < r@.len() implies (
                            r@[k].start as int,
                            r@[k].end as int,
                        ) == #[trigger] rex::regex_ranges(source, text@)[k] by {
                            assert(r@[k] == r@[k]);
                        }
                    }
                    lemma_regex_spans(source, text@, replacement@);
                }
                r
            },
        }
    }

    /// Replaces every match in a text; `None` where nothing matches.
    pub fn replace(&self, text: &str, replacement: &str) -> (r: Option<String>)
        ensures
            match r {
                Some(out) => self@.is_match(text@) && out@ == spans::splice(
                    text@,
                    self@.spans(text@, replacement@),
                ),
                None => !self@.is_match(text@),
            },
    {
        match self {
            Matcher::Literal { .. } => {
                let v = self.find_replacements(text, replacement);
                let ghost sp = self@.spans(text@, replacement@);
                if v.len() == 0 {
                    None
                } else {
                    proof {
                        assert(sp.take(sp.len() as int) =~= sp);
                    }
                    Some(splice_spans(text, &v, v.len(), Ghost(sp)))
                }
            },
            Matcher::Regex(re) => {
                if re.is_match(text) {
                    Some(regex_replace_all(re, text, replacement))
                } else {
                    None
                }
            },
        }
    }

    /// Replaces at most `limit` matches in a text (0 means all of them) and
    /// counts them; `None` where nothing matches.
    pub fn replace_n(&self, text: &str, replacement: &str, limit: usize) -> (r: Option<
        (String, usize),
    >)
        ensures
            match r {
                Some((out, n)) => self@.is_match(text@) && ({
                    let used = spans::limited(self@.spans(text@, replacement@), limit as int);
                    n == used.len() && out@ == spans::splice(text@, used)
                }),
                None => !self@.is_match(text@),
            },
            r is Some <==> self@.spans(text@, replacement@).len() > 0,
    {
        let v = self.find_replacements(text, replacement);
        let ghost sp = self@.spans(text@, replacement@);
        if v.len() == 0 {
            return None;
        }
        let n: usize = if limit == 0 || limit >= v.len() {
            v.len()
        } else {
            limit
        };
        proof {
            assert(sp.take(n as int) =~= spans::limited(sp, limit as int));
        }
        Some((splice_spans(text, &v, n, Ghost(sp)), n))
    }

    /// A cheap test on the whole buffer: where it fails, no line of the text
    /// matches. It may pass although no line matches.
    pub fn prescreen(&self, text: &str) -> (b: bool)
        ensures
            b == match self@ {
                MatcherView::Literal { pattern } => contains(text@, pattern),
                MatcherView::Regex { .. } => true,
            },
    {
        match self {
            Matcher::Literal { .. } => self.is_match(text),
            Matcher::Regex(_) => true,
        }
    }
}

} // verus!
