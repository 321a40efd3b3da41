//! Case and naming transformations, and leading indentation.
use vstd::prelude::*;
use vstd::utf8::*;

use crate::matcher;
use crate::matcher::Matcher;
use crate::offsets;
use crate::offsets::slice_str;
use crate::operation::TransformMode;
use crate::rex;
use crate::spans;
use crate::spans::{splice_spans, MatchSpan, Span};
use crate::strings;
use crate::strings::owned;

verus! {

/// `char::is_uppercase` beyond ASCII: Unicode's `Uppercase` property.
pub uninterp spec fn wide_is_upper(c: char) -> bool;

/// `char::is_lowercase` beyond ASCII: Unicode's `Lowercase` property.
pub uninterp spec fn wide_is_lower(c: char) -> bool;

/// `char::to_uppercase` beyond ASCII: the characters of the uppercase mapping.
pub uninterp spec fn wide_upper(c: char) -> Seq<char>;

/// `char::to_lowercase` beyond ASCII: the characters of the lowercase mapping.
pub uninterp spec fn wide_lower(c: char) -> Seq<char>;

/// `str::to_uppercase` of a text that is not all ASCII.
pub uninterp spec fn wide_str_upper(s: Seq<char>) -> Seq<char>;

/// `str::to_lowercase` of a text that is not all ASCII.
pub uninterp spec fn wide_str_lower(s: Seq<char>) -> Seq<char>;

/// An ASCII character in upper case.
pub open spec fn ascii_upper(c: char) -> char {
    if 'a' <= c <= 'z' {
        (c as u32 - 32) as char
    } else {
        c
    }
}

/// Whether a text is all ASCII.
pub open spec fn all_ascii(s: Seq<char>) -> bool {
    forall|i: int| 0 <= i < s.len() ==> rex::is_ascii(#[trigger] s[i])
}

/// Whether a character is in upper case.
pub open spec fn char_is_upper(c: char) -> bool {
    if rex::is_ascii(c) {
        'A' <= c <= 'Z'
    } else {
        wide_is_upper(c)
    }
}

/// Whether a character is in lower case.
pub open spec fn char_is_lower(c: char) -> bool {
    if rex::is_ascii(c) {
        'a' <= c <= 'z'
    } else {
        wide_is_lower(c)
    }
}

/// A character in upper case.
pub open spec fn char_upper(c: char) -> Seq<char> {
    if rex::is_ascii(c) {
        seq![ascii_upper(c)]
    } else {
        wide_upper(c)
    }
}

/// A character in lower case.
pub open spec fn char_lower(c: char) -> Seq<char> {
    if rex::is_ascii(c) {
        seq![rex::ascii_lower(c)]
    } else {
        wide_lower(c)
    }
}

/// A text in upper case.
pub open spec fn str_upper(s: Seq<char>) -> Seq<char> {
    if all_ascii(s) {
        s.map_values(|c: char| ascii_upper(c))
    } else {
        wide_str_upper(s)
    }
}

/// A text in lower case.
pub open spec fn str_lower(s: Seq<char>) -> Seq<char> {
    if all_ascii(s) {
        s.map_values(|c: char| rex::ascii_lower(c))
    } else {
        wide_str_lower(s)
    }
}

/// `char::is_uppercase` tells whether a character is in upper case: in ASCII
/// the letters from `A` to `Z`, beyond it by a table that is only named.
pub assume_specification[ char::is_uppercase ](c: char) -> (b: bool)
    ensures
        b == char_is_upper(c),
        !rex::is_ascii(c) ==> b == wide_is_upper(c),
;

/// `char::is_lowercase` tells whether a character is in lower case: in ASCII
/// the letters from `a` to `z`, beyond it by a table that is only named.
pub assume_specification[ char::is_lowercase ](c: char) -> (b: bool)
    ensures
        b == char_is_lower(c),
        !rex::is_ascii(c) ==> b == wide_is_lower(c),
;

/// `char::to_uppercase`, collected into a string: in ASCII one character, and
/// another one only for the letters from `a` to `z`.
#[verifier::external_body]
fn upper_of(c: char) -> (r: String)
    ensures
        r@ == char_upper(c),
        !rex::is_ascii(c) ==> r@ == wide_upper(c),
{
    c.to_uppercase().collect()
}

/// `char::to_lowercase`, collected into a string: in ASCII one character, and
/// another one only for the letters from `A` to `Z`.
#[verifier::external_body]
fn lower_of(c: char) -> (r: String)
    ensures
        r@ == char_lower(c),
        !rex::is_ascii(c) ==> r@ == wide_lower(c),
{
    c.to_lowercase().collect()
}

/// `str::to_uppercase` gives the uppercase equivalent of a text. A text that
/// is all ASCII keeps its length, and each character has its own.
pub assume_specification[ str::to_uppercase ](s: &str) -> (r: String)
    ensures
        r@ == str_upper(s@),
        !all_ascii(s@) ==> r@ == wide_str_upper(s@),
;

/// `str::to_lowercase` gives the lowercase equivalent of a text. A text that
/// is all ASCII keeps its length, and each character has its own.
pub assume_specification[ str::to_lowercase ](s: &str) -> (r: String)
    ensures
        r@ == str_lower(s@),
        !all_ascii(s@) ==> r@ == wide_str_lower(s@),
;

/// Characters that separate the words of a title.
pub open spec fn title_gap(c: char) -> bool {
    strings::char_whitespace(c) || c == '_' || c == '-'
}

/// Characters that separate the words of an identifier in words.
pub open spec fn camel_gap(c: char) -> bool {
    c == '_' || c == '-' || c == ' '
}

/// What title case makes of character `i`: the first character of each word is
/// put in upper case.
pub open spec fn title_piece(s: Seq<char>, i: int) -> Seq<char> {
    if !title_gap(s[i]) && (i == 0 || title_gap(s[i - 1])) {
        char_upper(s[i])
    } else {
        seq![s[i]]
    }
}

/// What snake case makes of character `i`: an uppercase character is put in
/// lower case, behind a `_` where it follows a lowercase one; `-` and a space
/// become `_`.
pub open spec fn snake_piece(s: Seq<char>, i: int) -> Seq<char> {
    if char_is_upper(s[i]) {
        if i > 0 && snake_lower(s[i - 1]) {
            seq!['_'] + char_lower(s[i])
        } else {
            char_lower(s[i])
        }
    } else if s[i] == '-' || s[i] == ' ' {
        seq!['_']
    } else {
        seq![s[i]]
    }
}

/// Whether an uppercase character behind `c` starts a new word.
pub open spec fn snake_lower(c: char) -> bool {
    !char_is_upper(c) && c != '-' && c != ' ' && char_is_lower(c)
}

/// Whether every character before `i` is a gap or the first of a word behind a gap.
pub open spec fn camel_first(s: Seq<char>, i: int) -> bool {
    forall|j: int| 0 <= j < i ==> #[trigger] camel_gap(s[j]) || (j > 0 && camel_gap(s[j - 1]))
}

/// What camel case makes of character `i`: gaps vanish, the character behind a
/// gap is put in upper case, and the first other character in lower case.
pub open spec fn camel_piece(s: Seq<char>, i: int) -> Seq<char> {
    if camel_gap(s[i]) {
        Seq::empty()
    } else if i > 0 && camel_gap(s[i - 1]) {
        char_upper(s[i])
    } else if camel_first(s, i) {
        char_lower(s[i])
    } else {
        seq![s[i]]
    }
}

/// Title case of the first `n` characters.
pub open spec fn title_case(s: Seq<char>, n: int) -> Seq<char>
    decreases n,
{
    if n <= 0 {
        Seq::empty()
    } else {
        title_case(s, n - 1) + title_piece(s, n - 1)
    }
}

/// Snake case of the first `n` characters.
pub open spec fn snake_case(s: Seq<char>, n: int) -> Seq<char>
    decreases n,
{
    if n <= 0 {
        Seq::empty()
    } else {
        snake_case(s, n - 1) + snake_piece(s, n - 1)
    }
}

/// Camel case of the first `n` characters.
pub open spec fn camel_case(s: Seq<char>, n: int) -> Seq<char>
    decreases n,
{
    if n <= 0 {
        Seq::empty()
    } else {
        camel_case(s, n - 1) + camel_piece(s, n - 1)
    }
}

/// A text in another case.
pub open spec fn transformed(s: Seq<char>, mode: TransformMode) -> Seq<char> {
    match mode {
        TransformMode::Upper => str_upper(s),
        TransformMode::Lower => str_lower(s),
        TransformMode::Title => title_case(s, s.len() as int),
        TransformMode::SnakeCase => snake_case(s, s.len() as int),
        TransformMode::CamelCase => camel_case(s, s.len() as int),
    }
}

/// Whether snake case leaves a character as it is.
pub open spec fn is_snake(c: char) -> bool {
    !char_is_upper(c) && c != '-' && c != ' '
}

/// Snake case of an ASCII text holds no uppercase letter, no `-` and no space.
proof fn lemma_snake_is_snake(s: Seq<char>, n: int)
    requires
        all_ascii(s),
        0 <= n <= s.len(),
    ensures
        all_ascii(snake_case(s, n)),
        forall|k: int| 0 <= k < snake_case(s, n).len() ==> is_snake(#[trigger] snake_case(s, n)[k]),
    decreases n,
{
    if n > 0 {
        lemma_snake_is_snake(s, n - 1);
        let before = snake_case(s, n - 1);
        let piece = snake_piece(s, n - 1);
        let out = snake_case(s, n);
        assert(rex::is_ascii(s[n - 1]));
        assert forall|k: int| 0 <= k < out.len() implies rex::is_ascii(#[trigger] out[k])
            && is_snake(out[k]) by {
            if k < before.len() {
                assert(out[k] == before[k]);
            } else {
                assert(out[k] == piece[k - before.len()]);
            }
        }
    }
}

/// Snake case leaves a text as it is that holds nothing to change.
proof fn lemma_snake_stays(s: Seq<char>, n: int)
    requires
        0 <= n <= s.len(),
        forall|k: int| 0 <= k < s.len() ==> is_snake(#[trigger] s[k]),
    ensures
        snake_case(s, n) == s.take(n),
    decreases n,
{
    if n > 0 {
        lemma_snake_stays(s, n - 1);
        assert(is_snake(s[n - 1]));
        assert(s.take(n) =~= s.take(n - 1) + seq![s[n - 1]]);
    } else {
        assert(s.take(0) =~= Seq::<char>::empty());
    }
}

/// Snake case of an ASCII text holds no uppercase letter, no `-` and no space,
/// and putting it in snake case again changes nothing.
pub proof fn law_snake_case_is_idempotent(text: Seq<char>)
    requires
        all_ascii(text),
    ensures
        ({
            let s = transformed(text, TransformMode::SnakeCase);
            &&& forall|k: int| 0 <= k < s.len() ==> {
                &&& !('A' <= #[trigger] s[k] <= 'Z')
                &&& s[k] != '-'
                &&& s[k] != ' '
            }
            &&& transformed(s, TransformMode::SnakeCase) == s
        }),
{
    let s = transformed(text, TransformMode::SnakeCase);
    lemma_snake_is_snake(text, text.len() as int);
    assert forall|k: int| 0 <= k < s.len() implies !('A' <= #[trigger] s[k] <= 'Z') && s[k] != '-'
        && s[k] != ' ' by {
        assert(is_snake(s[k]));
    }
    lemma_snake_stays(s, s.len() as int);
    assert(s.take(s.len() as int) =~= s);
}

/// Upper and lower case of an ASCII text keep its length, and hold no letter of
/// the other case.
pub proof fn law_case_of_ascii(text: Seq<char>)
    requires
        all_ascii(text),
    ensures
        transformed(text, TransformMode::Upper).len() == text.len(),
        transformed(text, TransformMode::Lower).len() == text.len(),
        forall|k: int| 0 <= k < text.len() ==> !char_is_lower(
            #[trigger] transformed(text, TransformMode::Upper)[k],
        ),
        forall|k: int| 0 <= k < text.len() ==> !char_is_upper(
            #[trigger] transformed(text, TransformMode::Lower)[k],
        ),
{
    assert forall|k: int| 0 <= k < text.len() implies !char_is_lower(
        #[trigger] transformed(text, TransformMode::Upper)[k],
    ) by {
        assert(rex::is_ascii(text[k]));
    }
    assert forall|k: int| 0 <= k < text.len() implies !char_is_upper(
        #[trigger] transformed(text, TransformMode::Lower)[k],
    ) by {
        assert(rex::is_ascii(text[k]));
    }
}

/// The first `n` spans with the matched text in another case as their replacement.
pub open spec fn transformed_spans(text: Seq<char>, sp: Seq<Span>, mode: TransformMode) -> Seq<Span> {
    sp.map_values(
        |s: Span| Span { replacement: transformed(text.subrange(s.start, s.end), mode), ..s },
    )
}

/// A text with every match put in another case.
pub open spec fn transform_line(line: Seq<char>, m: matcher::MatcherView, mode: TransformMode) -> Seq<
    char,
> {
    spans::splice(line, transformed_spans(line, m.spans(line, Seq::empty()), mode))
}

fn title_text(text: &str) -> (r: String)
    ensures
        r@ == title_case(text@, text@.len() as int),
{
    let chars = strings::chars_of(text);
    let mut out = String::new();
    let mut capitalize_next = true;
    let mut i: usize = 0;
    while i < chars.len()
        invariant
            chars@ == text@,
            i <= chars@.len(),
            capitalize_next == (i == 0 || title_gap(chars@[i - 1])),
            out@ == title_case(chars@, i as int),
        decreases chars@.len() - i,
    {
        let c = chars[i];
        let ghost before = out@;
        if c.is_whitespace() || c == '_' || c == '-' {
            out.push(c);
            capitalize_next = true;
            proof {
                assert(out@ =~= before + seq![c]);
            }
        } else if capitalize_next {
            let upper = upper_of(c);
            out.append(upper.as_str());
            capitalize_next = false;
        } else {
            out.push(c);
            proof {
                assert(out@ =~= before + seq![c]);
            }
        }
        i += 1;
    }
    out
}

fn snake_text(text: &str) -> (r: String)
    ensures
        r@ == snake_case(text@, text@.len() as int),
{
    let chars = strings::chars_of(text);
    let mut out = String::new();
    let mut prev_was_lower = false;
    let mut i: usize = 0;
    while i < chars.len()
        invariant
            chars@ == text@,
            i <= chars@.len(),
            prev_was_lower == (i > 0 && snake_lower(chars@[i - 1])),
            out@ == snake_case(chars@, i as int),
        decreases chars@.len() - i,
    {
        let c = chars[i];
        let ghost before = out@;
        if c.is_uppercase() {
            let lower = lower_of(c);
            if prev_was_lower {
                out.push('_');
            }
            out.append(lower.as_str());
            prev_was_lower = false;
            proof {
                assert(out@ =~= before + snake_piece(chars@, i as int));
            }
        } else if c == '-' || c == ' ' {
            out.push('_');
            prev_was_lower = false;
            proof {
                assert(out@ =~= before + seq!['_']);
            }
        } else {
            out.push(c);
            prev_was_lower = c.is_lowercase();
            proof {
                assert(out@ =~= before + seq![c]);
            }
        }
        i += 1;
    }
    out
}

fn camel_text(text: &str) -> (r: String)
    ensures
        r@ == camel_case(text@, text@.len() as int),
{
    let chars = strings::chars_of(text);
    let mut out = String::new();
    let mut capitalize_next = false;
    let mut first = true;
    let mut i: usize = 0;
    while i < chars.len()
        invariant
            chars@ == text@,
            i <= chars@.len(),
            capitalize_next == (i > 0 && camel_gap(chars@[i - 1])),
            first == camel_first(chars@, i as int),
            out@ == camel_case(chars@, i as int),
        decreases chars@.len() - i,
    {
        let c = chars[i];
        let ghost before = out@;
        if c == '_' || c == '-' || c == ' ' {
            capitalize_next = true;
            proof {
                assert(out@ =~= before + Seq::<char>::empty());
            }
        } else if capitalize_next {
            let upper = upper_of(c);
            out.append(upper.as_str());
            capitalize_next = false;
        } else if first {
            let lower = lower_of(c);
            out.append(lower.as_str());
            first = false;
            proof {
                assert(!camel_gap(chars@[i as int]));
            }
        } else {
            out.push(c);
            first = false;
            proof {
                assert(out@ =~= before + seq![c]);
            }
        }
        i += 1;
        proof {
            assert(camel_first(chars@, i as int) ==> camel_first(chars@, i - 1));
            assert(camel_first(chars@, i as int) == (camel_first(chars@, i - 1) && (camel_gap(
                chars@[i - 1],
            ) || (i - 1 > 0 && camel_gap(chars@[i - 2])))));
        }
    }
    out
}

/// A text in another case.
pub fn transform_text(text: &str, mode: TransformMode) -> (r: String)
    ensures
        r@ == transformed(text@, mode),
{
    match mode {
        TransformMode::Upper => text.to_uppercase(),
        TransformMode::Lower => text.to_lowercase(),
        TransformMode::Title => title_text(text),
        TransformMode::SnakeCase => snake_text(text),
        TransformMode::CamelCase => camel_text(text),
    }
}

/// Puts every match in a line in another case.
pub fn apply_transform(line: &str, m: &Matcher, mode: TransformMode) -> (r: String)
    ensures
        r@ == transform_line(line@, m@, mode),
{
    let found = m.find_replacements(line, "");
    proof {
        reveal_strlit("");
        assert(""@ =~= Seq::<char>::empty());
    }
    let ghost sp = m@.spans(line@, Seq::empty());
    let ghost want = transformed_spans(line@, sp, mode);
    let mut out: Vec<MatchSpan> = Vec::new();
    let mut i: usize = 0;
    while i < found.len()
        invariant
            i <= found@.len(),
            out@.len() == i,
            sp == m@.spans(line@, Seq::empty()),
            want == transformed_spans(line@, sp, mode),
            spans::spans_ok(line@.len(), sp),
            spans::spans_match(line@, found@, sp),
            forall|k: int| #![trigger out@[k]]
                0 <= k < i ==> out@[k].start == found@[k].start && out@[k].end == found@[k].end
                    && out@[k].replacement@ == want[k].replacement,
        decreases found@.len() - i,
    {
        let f = &found[i];
        let ghost s = sp[i as int];
        let matched = slice_str(line, f.start, f.end, Ghost(s.start), Ghost(s.end));
        let replacement = transform_text(matched, mode);
        out.push(MatchSpan { start: f.start, end: f.end, replacement });
        i += 1;
    }
    proof {
        assert(spans::spans_ok(line@.len(), want)) by {
            assert forall|k: int, l: int| 0 <= k < l < want.len() implies (#[trigger] want[k]).end
                <= (#[trigger] want[l]).start by {
                assert(sp[k].end <= sp[l].start);
            }
            assert forall|k: int| 0 <= k < want.len() implies 0 <= (#[trigger] want[k]).start
                <= want[k].end <= line@.len() by {
                assert(sp[k].start <= sp[k].end);
            }
        }
        assert(spans::spans_match(line@, out@, want)) by {
            assert forall|k: int| 0 <= k < out@.len() implies (#[trigger] out@[k]).start
                == offsets::byte_pos(line@, want[k].start) && out@[k].end == offsets::byte_pos(
                line@,
                want[k].end,
            ) && out@[k].replacement@ == want[k].replacement by {
                assert(found@[k].start == offsets::byte_pos(line@, sp[k].start));
            }
        }
        assert(want.take(want.len() as int) =~= want);
    }
    let n = out.len();
    splice_spans(line, &out, n, Ghost(want))
}

/// The character that indentation is made of.
pub open spec fn indent_char(use_tabs: bool) -> char {
    if use_tabs {
        '\t'
    } else {
        ' '
    }
}

/// `amount` indentation characters.
pub open spec fn indent_text(amount: nat, use_tabs: bool) -> Seq<char> {
    Seq::new(amount, |i: int| indent_char(use_tabs))
}

/// How many `c` a text starts with.
pub open spec fn leading_run(s: Seq<char>, c: char) -> nat
    decreases s.len(),
{
    if s.len() == 0 || s[0] != c {
        0
    } else {
        1 + leading_run(s.skip(1), c)
    }
}

/// A line less up to `amount` leading indentation characters.
pub open spec fn dedented(s: Seq<char>, amount: nat, use_tabs: bool) -> Seq<char> {
    let run = leading_run(s, indent_char(use_tabs));
    s.skip(
        if run < amount {
            run as int
        } else {
            amount as int
        },
    )
}

/// A run ends where another character, or nothing, stands.
pub proof fn lemma_leading_run(s: Seq<char>, c: char, k: int)
    requires
        0 <= k <= s.len(),
        forall|j: int| 0 <= j < k ==> s[j] == c,
    ensures
        leading_run(s, c) >= k,
        k == s.len() || s[k] != c ==> leading_run(s, c) == k,
        leading_run(s, c) <= s.len(),
    decreases s.len(),
{
    if s.len() > 0 {
        if k > 0 {
            assert(s[0] == c);
            lemma_leading_run(s.skip(1), c, k - 1);
        } else if s[0] == c {
            lemma_leading_run(s.skip(1), c, 0);
        }
    }
}

/// `amount` indentation characters.
pub fn indentation(amount: usize, use_tabs: bool) -> (r: String)
    ensures
        r@ == indent_text(amount as nat, use_tabs),
{
    let mut out = String::new();
    let mut i: usize = 0;
    while i < amount
        invariant
            i <= amount,
            out@ == indent_text(i as nat, use_tabs),
        decreases amount - i,
    {
        out.push(
            if use_tabs {
                '\t'
            } else {
                ' '
            },
        );
        i += 1;
        proof {
            assert(out@ =~= indent_text(i as nat, use_tabs));
        }
    }
    proof {
        assert(out@ =~= indent_text(amount as nat, use_tabs));
    }
    out
}

/// Removes up to `amount` leading tabs or spaces from a line.
pub fn dedent_line(line: &str, amount: usize, use_tabs: bool) -> (r: String)
    ensures
        r@ == dedented(line@, amount as nat, use_tabs),
{
    let ghost s = line@;
    let ghost c = indent_char(use_tabs);
    let byte: u8 = if use_tabs {
        9
    } else {
        32
    };
    let bytes = line.as_bytes();
    let mut k: usize = 0;
    proof {
        offsets::lemma_byte_pos_ends(s);
    }
    while k < amount && k < bytes.len() && bytes[k] == byte
        invariant
            s == line@,
            bytes@ == encode_utf8(s),
            c == indent_char(use_tabs),
            byte == c as u8,
            byte < 0x80,
            (byte as char) == c,
            k <= amount,
            k <= s.len(),
            offsets::byte_pos(s, k as int) == k,
            forall|j: int| 0 <= j < k ==> s[j] == c,
        decreases amount - k,
    {
        proof {
            let i = offsets::lemma_ascii_byte(s, k as int);
            offsets::lemma_byte_pos_injective(s, i, k as int);
            offsets::lemma_ascii_at(s, i);
        }
        k += 1;
    }
    proof {
        lemma_leading_run(s, c, k as int);
        if k < amount && k < s.len() && s[k as int] == c {
            offsets::lemma_ascii_at(s, k as int);
        }
        offsets::lemma_byte_pos_ends(s);
        assert(s.subrange(k as int, s.len() as int) =~= s.skip(k as int));
    }
    owned(slice_str(line, k, bytes.len(), Ghost(k as int), Ghost(s.len() as int)))
}

} // verus!
