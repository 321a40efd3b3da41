//! The regular-expression engine, as the library sees it.
//!
//! A compiled pattern is known by its source. What the engine finds in a text
//! is a function of that source and the text; the names below stand for it.
use vstd::prelude::*;
use vstd::utf8::*;

use crate::offsets;
use crate::spans::MatchSpan;

verus! {

/// A compiled pattern of the `regex` crate.
#[verifier::external_type_specification]
#[verifier::external_body]
pub struct ExRegex(regex::Regex);

/// The reason why a pattern does not compile.
#[verifier::external_type_specification]
#[verifier::external_body]
pub struct ExRegexError(regex::Error);

/// `Regex::as_str`: the source that a pattern was compiled from.
pub uninterp spec fn regex_source(re: regex::Regex) -> Seq<char>;

/// `Regex::new`: the error that compiling a source ends in, `None` where it compiles.
pub uninterp spec fn regex_compile_error(source: Seq<char>) -> Option<regex::Error>;

/// The `Display` text of a `regex::Error`.
pub uninterp spec fn regex_error_text(e: regex::Error) -> Seq<char>;

/// `Regex::captures_iter`: the byte ranges of the successive matches of a
/// source in a text.
pub uninterp spec fn regex_ranges(source: Seq<char>, text: Seq<char>) -> Seq<(int, int)>;

/// `Captures::expand`: the replacement of match number `index`, with its
/// capture references expanded.
pub uninterp spec fn regex_expansion(
    source: Seq<char>,
    text: Seq<char>,
    index: int,
    replacement: Seq<char>,
) -> Seq<char>;

/// Whether a source matches anywhere in a text.
pub open spec fn regex_matches(source: Seq<char>, text: Seq<char>) -> bool {
    regex_ranges(source, text).len() > 0
}

/// Byte ranges on character boundaries of `text`, in order and without overlap.
pub open spec fn ranges_ok(text: Seq<char>, ranges: Seq<(int, int)>) -> bool {
    &&& forall|k: int| #![trigger ranges[k]]
        0 <= k < ranges.len() ==> 0 <= ranges[k].0 <= ranges[k].1 <= encode_utf8(text).len()
            && is_char_boundary(encode_utf8(text), ranges[k].0)
            && is_char_boundary(encode_utf8(text), ranges[k].1)
    &&& forall|k: int, l: int| #![trigger ranges[k], ranges[l]]
        0 <= k < l < ranges.len() ==> ranges[k].1 <= ranges[l].0
}

/// The characters that `regex::escape` puts a backslash before.
pub open spec fn is_meta(c: char) -> bool {
    c == '\\' || c == '.' || c == '+' || c == '*' || c == '?' || c == '(' || c == ')' || c == '|'
        || c == '[' || c == ']' || c == '{' || c == '}' || c == '^' || c == '$' || c == '#'
        || c == '&' || c == '-' || c == '~'
}

/// A text with a backslash before each meta character.
pub open spec fn escaped(s: Seq<char>) -> Seq<char>
    decreases s.len(),
{
    if s.len() == 0 {
        Seq::empty()
    } else if is_meta(s.last()) {
        escaped(s.drop_last()).push('\\').push(s.last())
    } else {
        escaped(s.drop_last()).push(s.last())
    }
}

// ---------------------------------------------------------------------------
// Literals in either case
// ---------------------------------------------------------------------------

/// The source of a literal that is matched in either case.
pub open spec fn folded_source(pat: Seq<char>) -> Seq<char> {
    "(?i)"@ + escaped(pat)
}

/// Whether one character is taken for another where case does not matter.
pub open spec fn folds_alike(c: char, d: char) -> bool {
    regex_matches(folded_source(seq![c]), seq![d])
}

/// Whether `pat` stands at position `i` of `text`, whatever the case.
pub open spec fn folds_at(text: Seq<char>, pat: Seq<char>, i: int) -> bool {
    &&& 0 <= i
    &&& i + pat.len() <= text.len()
    &&& forall|k: int| #![trigger pat[k]] 0 <= k < pat.len() ==> folds_alike(pat[k], text[i + k])
}

/// Where `pat` stands in `text` from `from` on, whatever the case: left to
/// right, without overlap.
pub open spec fn folded_starts(text: Seq<char>, pat: Seq<char>, from: int) -> Seq<int>
    decreases text.len() + 1 - from,
{
    if from < 0 || from + pat.len() > text.len() {
        Seq::empty()
    } else if folds_at(text, pat, from) {
        seq![from] + folded_starts(
            text,
            pat,
            from + if pat.len() == 0 {
                1
            } else {
                pat.len() as int
            },
        )
    } else {
        folded_starts(text, pat, from + 1)
    }
}

/// A letter of ASCII in lower case; any other character as it is.
pub open spec fn ascii_lower(c: char) -> char {
    if 'A' <= c && c <= 'Z' {
        (c as u32 + 32) as char
    } else {
        c
    }
}

/// Whether a character is one of ASCII.
pub open spec fn is_ascii(c: char) -> bool {
    (c as u32) < 128
}

/// What is known of the source of a literal that is matched in either case.
/// It matches where each character of the literal does; what a match is
/// replaced by hangs on the matched text alone, since there are no groups. No
/// other character folds to a line terminator, and among the characters of
/// ASCII those fold that are the same letter.
#[verifier::opaque]
pub open spec fn finds_folded(source: Seq<char>, pat: Seq<char>) -> bool {
    &&& forall|text: Seq<char>| #[trigger] regex_ranges(source, text) == folded_starts(text, pat, 0)
        .map_values(|i: int| (offsets::byte_pos(text, i), offsets::byte_pos(text, i + pat.len())))
    &&& forall|text: Seq<char>, k: int, replacement: Seq<char>|
        #![trigger regex_expansion(source, text, k, replacement)]
        0 <= k < folded_starts(text, pat, 0).len() ==> regex_expansion(source, text, k, replacement)
            == regex_expansion(
            source,
            text.subrange(
                folded_starts(text, pat, 0)[k],
                folded_starts(text, pat, 0)[k] + pat.len(),
            ),
            0,
            replacement,
        )
    &&& forall|k: int, d: char| #![trigger folds_alike(pat[k], d)]
        0 <= k < pat.len() && (d == '\n' || d == '\r') && folds_alike(pat[k], d) ==> pat[k] == d
    &&& forall|k: int, d: char| #![trigger folds_alike(pat[k], d)]
        0 <= k < pat.len() && is_ascii(pat[k]) && is_ascii(d) ==> folds_alike(pat[k], d) == (
        ascii_lower(pat[k]) == ascii_lower(d))
}

/// `Regex::new` compiles a source or says why it cannot; a compiled pattern
/// keeps its source. Behind `(?i)` an escaped text is that text in either case,
/// by simple case folding: one character for one.
pub assume_specification[ regex::Regex::new ](re: &str) -> (r: Result<regex::Regex, regex::Error>)
    ensures
        match r {
            Ok(compiled) => {
                &&& regex_compile_error(re@) is None
                &&& regex_source(compiled) == re@
                &&& forall|pat: Seq<char>| regex_source(compiled) == #[trigger] folded_source(pat)
                    ==> finds_folded(regex_source(compiled), pat)
            },
            Err(e) => regex_compile_error(re@) == Some(e),
        },
;

/// `Regex::is_match` answers whether there is a match anywhere in the text.
pub assume_specification[ regex::Regex::is_match ](re: &regex::Regex, haystack: &str) -> (b: bool)
    ensures
        b == regex_matches(regex_source(*re), haystack@),
;

/// `regex::escape` puts a backslash before each meta character of the text
/// and copies the others.
pub assume_specification[ regex::escape ](pattern: &str) -> (r: String)
    ensures
        r@ == escaped(pattern@),
;

/// The `Display` text of a `regex::Error`, by `ToString::to_string`.
#[verifier::external_body]
pub(crate) fn error_text(e: &regex::Error) -> (r: String)
    ensures
        r@ == regex_error_text(*e),
{
    e.to_string()
}

/// `Regex::captures_iter` over the text, with `Captures::get(0)` for the
/// range of each match and `Captures::expand` for its replacement. The ranges
/// come in order, do not overlap, and lie on character boundaries.
#[verifier::external_body]
pub(crate) fn capture_spans(re: &regex::Regex, text: &str, replacement: &str) -> (r: Vec<MatchSpan>)
    ensures
        r@.len() == regex_ranges(regex_source(*re), text@).len(),
        ranges_ok(text@, Seq::new(r@.len(), |k: int| (r@[k].start as int, r@[k].end as int))),
        forall|k: int| #![trigger r@[k]]
            0 <= k < r@.len() ==> {
                &&& regex_ranges(regex_source(*re), text@)[k] == (r@[k].start as int, r@[k].end as int)
                &&& r@[k].replacement@ == regex_expansion(
                    regex_source(*re),
                    text@,
                    k,
                    replacement@,
                )
            },
{
    re.captures_iter(text).map(|caps| {
        let m = caps.get(0).expect("group 0 is the match itself");
        let mut expanded = String::new();
        caps.expand(replacement, &mut expanded);
        MatchSpan { start: m.start(), end: m.end(), replacement: expanded }
    }).collect()
}

} // verus!
