//! Laws of case: what each transformation makes of a text, character by
//! character, and which part of a line it is done to.
use vstd::prelude::*;

use crate::matcher::MatcherView;
use crate::operation::TransformMode;
use crate::pattern_laws;
use crate::rex;
use crate::spans;
use crate::strings;
use crate::transform;

verus! {

/// An ASCII letter in lower case, other characters as they are.
pub open spec fn lower_letter(c: char) -> char {
    if 'A' <= c <= 'Z' {
        (c as int + 32) as char
    } else {
        c
    }
}

/// An ASCII letter in upper case, other characters as they are.
pub open spec fn upper_letter(c: char) -> char {
    if 'a' <= c <= 'z' {
        (c as int - 32) as char
    } else {
        c
    }
}

/// What separates the words of an identifier: `_`, `-` and a space.
pub open spec fn parts_words(c: char) -> bool {
    c == '_' || c == '-' || c == ' '
}

/// How many of the first `i` characters separate no words.
pub open spec fn kept_before(s: Seq<char>, i: int) -> nat
    decreases i,
{
    if i <= 0 {
        0
    } else {
        kept_before(s, i - 1) + if parts_words(s[i - 1]) {
            0nat
        } else {
            1nat
        }
    }
}

/// The characters of a text that separate no words, in order.
pub open spec fn kept(s: Seq<char>, n: int) -> Seq<char>
    decreases n,
{
    if n <= 0 {
        Seq::empty()
    } else if parts_words(s[n - 1]) {
        kept(s, n - 1)
    } else {
        kept(s, n - 1).push(s[n - 1])
    }
}

/// Whether a text holds a character that separates no words and does not stand
/// right behind one that does.
pub open spec fn has_begun(s: Seq<char>) -> bool {
    exists|j: int| #![trigger s[j]]
        0 <= j < s.len() && !parts_words(s[j]) && (j == 0 || !parts_words(s[j - 1]))
}

/// A text in lower case, letter by letter.
pub open spec fn all_lower(s: Seq<char>) -> Seq<char> {
    s.map_values(|c: char| lower_letter(c))
}

// ---------------------------------------------------------------------------
// Prefixes
// ---------------------------------------------------------------------------

proof fn lemma_title_prefix(s: Seq<char>, c: char, n: int)
    requires
        0 <= n <= s.len(),
    ensures
        transform::title_case(s.push(c), n) == transform::title_case(s, n),
    decreases n,
{
    if n > 0 {
        lemma_title_prefix(s, c, n - 1);
        assert(s.push(c)[n - 1] == s[n - 1]);
        if n > 1 {
            assert(s.push(c)[n - 2] == s[n - 2]);
        }
    }
}

proof fn lemma_snake_prefix(s: Seq<char>, c: char, n: int)
    requires
        0 <= n <= s.len(),
    ensures
        transform::snake_case(s.push(c), n) == transform::snake_case(s, n),
    decreases n,
{
    if n > 0 {
        lemma_snake_prefix(s, c, n - 1);
        assert(s.push(c)[n - 1] == s[n - 1]);
        if n > 1 {
            assert(s.push(c)[n - 2] == s[n - 2]);
        }
    }
}

proof fn lemma_camel_first_prefix(s: Seq<char>, c: char, i: int)
    requires
        0 <= i <= s.len(),
    ensures
        transform::camel_first(s.push(c), i) == transform::camel_first(s, i),
{
    let t = s.push(c);
    assert(forall|j: int| 0 <= j < s.len() ==> t[j] == s[j]);
    if transform::camel_first(s, i) {
        assert forall|j: int| 0 <= j < i implies #[trigger] transform::camel_gap(t[j]) || (j > 0
            && transform::camel_gap(t[j - 1])) by {
            assert(transform::camel_gap(s[j]) || (j > 0 && transform::camel_gap(s[j - 1])));
        }
    }
    if transform::camel_first(t, i) {
        assert forall|j: int| 0 <= j < i implies #[trigger] transform::camel_gap(s[j]) || (j > 0
            && transform::camel_gap(s[j - 1])) by {
            assert(transform::camel_gap(t[j]) || (j > 0 && transform::camel_gap(t[j - 1])));
        }
    }
}

proof fn lemma_camel_prefix(s: Seq<char>, c: char, n: int)
    requires
        0 <= n <= s.len(),
    ensures
        transform::camel_case(s.push(c), n) == transform::camel_case(s, n),
    decreases n,
{
    if n > 0 {
        lemma_camel_prefix(s, c, n - 1);
        lemma_camel_first_prefix(s, c, n - 1);
        assert(s.push(c)[n - 1] == s[n - 1]);
        if n > 1 {
            assert(s.push(c)[n - 2] == s[n - 2]);
        }
    }
}

proof fn lemma_has_begun(s: Seq<char>)
    ensures
        has_begun(s) == !transform::camel_first(s, s.len() as int),
{
    if has_begun(s) {
        let j = choose|j: int| #![trigger s[j]]
            0 <= j < s.len() && !parts_words(s[j]) && (j == 0 || !parts_words(s[j - 1]));
        assert(!transform::camel_gap(s[j]));
    }
    if !transform::camel_first(s, s.len() as int) {
        let j = choose|j: int|
            0 <= j < s.len() && !(#[trigger] transform::camel_gap(s[j]) || (j > 0
                && transform::camel_gap(s[j - 1])));
        assert(!parts_words(s[j]));
    }
}

// ---------------------------------------------------------------------------
// Growth
// ---------------------------------------------------------------------------

/// Camel case of a longer text is that of the shorter one and what becomes of
/// the character that was added: one that separates words is left out, one
/// behind such is put in upper case, the first is put in lower case, and any
/// other behind it stays as it is.
pub proof fn law_camel_case_grows(s: Seq<char>, c: char)
    ensures
        ({
            let mode = TransformMode::CamelCase;
            let was = transform::transformed(s, mode);
            let now = transform::transformed(s.push(c), mode);
            &&& transform::transformed(Seq::empty(), mode) == Seq::<char>::empty()
            &&& parts_words(c) ==> now == was
            &&& !parts_words(c) && s.len() > 0 && parts_words(s.last()) ==> now == was
                + transform::char_upper(c)
            &&& !parts_words(c) && s.len() == 0 ==> now == transform::char_lower(c)
            &&& !parts_words(c) && s.len() > 0 && !parts_words(s.last()) && !has_begun(s) ==> now
                == was + transform::char_lower(c)
            &&& !parts_words(c) && s.len() > 0 && !parts_words(s.last()) && has_begun(s) ==> now
                == was + seq![c]
        }),
{
    let n = s.len() as int;
    let t = s.push(c);
    lemma_camel_prefix(s, c, n);
    lemma_camel_first_prefix(s, c, n);
    lemma_has_begun(s);
    assert(t[n] == c);
    if n > 0 {
        assert(t[n - 1] == s.last());
    }
    let was = transform::camel_case(s, n);
    assert(was + Seq::<char>::empty() =~= was);
    if n == 0 {
        assert(was =~= Seq::<char>::empty());
        assert(was + transform::char_lower(c) =~= transform::char_lower(c));
    }
}

/// Title case of a longer text is that of the shorter one and what becomes of
/// the character that was added: the first of a word is put in upper case, any
/// other stays as it is. Words are parted by white space, `_` and `-`.
pub proof fn law_title_case_grows(s: Seq<char>, c: char)
    ensures
        ({
            let mode = TransformMode::Title;
            let was = transform::transformed(s, mode);
            let now = transform::transformed(s.push(c), mode);
            let parts = |d: char| strings::char_whitespace(d) || d == '_' || d == '-';
            &&& transform::transformed(Seq::empty(), mode) == Seq::<char>::empty()
            &&& !parts(c) && (s.len() == 0 || parts(s.last())) ==> now == was
                + transform::char_upper(c)
            &&& parts(c) || !(s.len() == 0 || parts(s.last())) ==> now == was + seq![c]
        }),
{
    let n = s.len() as int;
    lemma_title_prefix(s, c, n);
    assert(s.push(c)[n] == c);
    if n > 0 {
        assert(s.push(c)[n - 1] == s.last());
    }
}

/// Snake case of a longer text is that of the shorter one and what becomes of
/// the character that was added: one in upper case is put in lower case, with a
/// `_` before it where it stands behind one in lower case; `-` and a space
/// become `_`; any other stays as it is.
pub proof fn law_snake_case_grows(s: Seq<char>, c: char)
    ensures
        ({
            let mode = TransformMode::SnakeCase;
            let was = transform::transformed(s, mode);
            let now = transform::transformed(s.push(c), mode);
            let behind_lower = s.len() > 0 && transform::char_is_lower(s.last())
                && !transform::char_is_upper(s.last()) && s.last() != '-' && s.last() != ' ';
            &&& transform::transformed(Seq::empty(), mode) == Seq::<char>::empty()
            &&& transform::char_is_upper(c) && behind_lower ==> now == was + seq!['_']
                + transform::char_lower(c)
            &&& transform::char_is_upper(c) && !behind_lower ==> now == was
                + transform::char_lower(c)
            &&& !transform::char_is_upper(c) && (c == '-' || c == ' ') ==> now == was + seq!['_']
            &&& !transform::char_is_upper(c) && c != '-' && c != ' ' ==> now == was + seq![c]
        }),
{
    let n = s.len() as int;
    lemma_snake_prefix(s, c, n);
    assert(s.push(c)[n] == c);
    if n > 0 {
        assert(s.push(c)[n - 1] == s.last());
    }
    let was = transform::snake_case(s, n);
    assert(was + (seq!['_'] + transform::char_lower(c)) =~= was + seq!['_']
        + transform::char_lower(c));
}

// ---------------------------------------------------------------------------
// ASCII
// ---------------------------------------------------------------------------

/// Case of one ASCII character.
pub proof fn law_case_of_a_letter(c: char)
    requires
        rex::is_ascii(c),
    ensures
        transform::char_lower(c) == seq![lower_letter(c)],
        transform::char_upper(c) == seq![upper_letter(c)],
        transform::char_is_upper(c) <==> 'A' <= c <= 'Z',
        transform::char_is_lower(c) <==> 'a' <= c <= 'z',
{
}

/// Upper and lower case of an ASCII text put each of its letters in that case,
/// and leave every other character as it is.
pub proof fn law_letters_change_case(text: Seq<char>, k: int)
    requires
        transform::all_ascii(text),
        0 <= k < text.len(),
    ensures
        transform::transformed(text, TransformMode::Upper).len() == text.len(),
        transform::transformed(text, TransformMode::Lower).len() == text.len(),
        transform::transformed(text, TransformMode::Upper)[k] == upper_letter(text[k]),
        transform::transformed(text, TransformMode::Lower)[k] == lower_letter(text[k]),
{
}

/// Camel case of an ASCII text holds no `_`, no `-` and no space; what else the
/// text holds it holds in the same order, in one case or the other.
pub proof fn law_camel_case_keeps_the_letters(s: Seq<char>)
    requires
        transform::all_ascii(s),
    ensures
        ({
            let out = transform::transformed(s, TransformMode::CamelCase);
            &&& forall|k: int| 0 <= k < out.len() ==> !parts_words(#[trigger] out[k])
            &&& all_lower(out) == all_lower(kept(s, s.len() as int))
        }),
{
    lemma_camel_letters(s, s.len() as int);
}

proof fn lemma_camel_letters(s: Seq<char>, n: int)
    requires
        transform::all_ascii(s),
        0 <= n <= s.len(),
    ensures
        ({
            let out = transform::camel_case(s, n);
            &&& forall|k: int| 0 <= k < out.len() ==> !parts_words(#[trigger] out[k])
            &&& all_lower(out) == all_lower(kept(s, n))
            &&& out.len() == kept_before(s, n)
        }),
    decreases n,
{
    let out = transform::camel_case(s, n);
    if n > 0 {
        lemma_camel_letters(s, n - 1);
        let before = transform::camel_case(s, n - 1);
        let piece = transform::camel_piece(s, n - 1);
        assert(rex::is_ascii(s[n - 1]));
        if parts_words(s[n - 1]) {
            assert(out =~= before);
        } else {
            assert(piece.len() == 1);
            assert(lower_letter(piece[0]) == lower_letter(s[n - 1]));
            assert(out =~= before.push(piece[0]));
            assert(all_lower(out) =~= all_lower(before).push(lower_letter(piece[0])));
            assert(all_lower(kept(s, n)) =~= all_lower(kept(s, n - 1)).push(
                lower_letter(s[n - 1]),
            ));
            assert forall|k: int| 0 <= k < out.len() implies !parts_words(#[trigger] out[k]) by {
                if k < before.len() {
                    assert(out[k] == before[k]);
                }
            }
        }
    } else {
        assert(out =~= Seq::<char>::empty());
        assert(all_lower(out) =~= all_lower(kept(s, n)));
    }
}

proof fn lemma_camel_at(s: Seq<char>, i: int, n: int)
    requires
        transform::all_ascii(s),
        0 <= i < n <= s.len(),
        !parts_words(s[i]),
    ensures
        kept_before(s, i) < transform::camel_case(s, n).len(),
        seq![transform::camel_case(s, n)[kept_before(s, i) as int]] == transform::camel_piece(s, i),
    decreases n,
{
    lemma_camel_letters(s, n - 1);
    lemma_camel_letters(s, n);
    assert(rex::is_ascii(s[i]));
    let before = transform::camel_case(s, n - 1);
    let out = transform::camel_case(s, n);
    if i < n - 1 {
        lemma_camel_at(s, i, n - 1);
        assert(out[kept_before(s, i) as int] == before[kept_before(s, i) as int]);
    } else {
        let piece = transform::camel_piece(s, i);
        assert(piece.len() == 1);
        assert(out[kept_before(s, i) as int] == piece[0]);
        assert(seq![piece[0]] =~= piece);
    }
}

/// In camel case of an ASCII text, the character that starts the text is put in
/// lower case, each one behind a `_`, `-` or space is put in upper case, and
/// the others of a text that starts with a letter stay as they are.
pub proof fn law_camel_case_of_a_character(s: Seq<char>, i: int)
    requires
        transform::all_ascii(s),
        0 <= i < s.len(),
        !parts_words(s[i]),
    ensures
        ({
            let out = transform::transformed(s, TransformMode::CamelCase);
            let p = kept_before(s, i) as int;
            &&& 0 <= p < out.len()
            &&& i == 0 ==> p == 0 && out[0] == lower_letter(s[0])
            &&& i > 0 && parts_words(s[i - 1]) ==> out[p] == upper_letter(s[i])
            &&& i > 0 && !parts_words(s[i - 1]) && !parts_words(s[0]) ==> out[p] == s[i]
        }),
{
    lemma_camel_at(s, i, s.len() as int);
    assert(rex::is_ascii(s[i]));
    let out = transform::transformed(s, TransformMode::CamelCase);
    let p = kept_before(s, i) as int;
    assert(seq![out[p]][0] == transform::camel_piece(s, i)[0]);
    if i == 0 {
        assert(transform::camel_first(s, 0));
    } else if !parts_words(s[i - 1]) && !parts_words(s[0]) {
        assert(!transform::camel_gap(s[0]));
        assert(!transform::camel_first(s, i));
    }
}

/// Title case of an ASCII text keeps every character where it is, in one case
/// or the other: the first of each word in upper case, the others as they are.
pub proof fn law_title_case_of_a_character(s: Seq<char>, i: int)
    requires
        transform::all_ascii(s),
        0 <= i < s.len(),
    ensures
        ({
            let out = transform::transformed(s, TransformMode::Title);
            let parts = |d: char| strings::char_whitespace(d) || d == '_' || d == '-';
            &&& out.len() == s.len()
            &&& out[i] == if !parts(s[i]) && (i == 0 || parts(s[i - 1])) {
                upper_letter(s[i])
            } else {
                s[i]
            }
        }),
{
    lemma_title_at(s, i, s.len() as int);
    assert(rex::is_ascii(s[i]));
    let out = transform::transformed(s, TransformMode::Title);
    assert(seq![out[i]][0] == transform::title_piece(s, i)[0]);
}

proof fn lemma_title_at(s: Seq<char>, i: int, n: int)
    requires
        transform::all_ascii(s),
        0 <= n <= s.len(),
    ensures
        transform::title_case(s, n).len() == n,
        0 <= i < n ==> seq![transform::title_case(s, n)[i]] == transform::title_piece(s, i),
    decreases n,
{
    if n > 0 {
        lemma_title_at(s, i, n - 1);
        assert(rex::is_ascii(s[n - 1]));
        let piece = transform::title_piece(s, n - 1);
        assert(piece.len() == 1);
        assert(seq![piece[0]] =~= piece);
    }
}

/// Snake case of an ASCII text keeps all that the text holds, in order and in
/// lower case, with `_` for `-` and for a space: it is that, but for the `_`
/// that part words.
pub proof fn law_snake_case_keeps_the_letters(s: Seq<char>)
    requires
        transform::all_ascii(s),
    ensures
        all_lower(
            kept(
                transform::transformed(s, TransformMode::SnakeCase),
                transform::transformed(s, TransformMode::SnakeCase).len() as int,
            ),
        ) == all_lower(kept(s, s.len() as int)),
{
    lemma_snake_letters(s, s.len() as int);
}

proof fn lemma_kept_append(a: Seq<char>, b: Seq<char>, n: int)
    requires
        0 <= n <= b.len(),
    ensures
        kept(a + b, a.len() + n) == kept(a, a.len() as int) + kept(b, n),
    decreases n,
{
    if n > 0 {
        lemma_kept_append(a, b, n - 1);
        assert((a + b)[a.len() + n - 1] == b[n - 1]);
        if !parts_words(b[n - 1]) {
            assert((kept(a, a.len() as int) + kept(b, n - 1)).push(b[n - 1]) =~= kept(
                a,
                a.len() as int,
            ) + kept(b, n - 1).push(b[n - 1]));
        }
    } else {
        lemma_kept_prefix(a, b, a.len() as int);
        assert(kept(a, a.len() as int) + kept(b, 0) =~= kept(a, a.len() as int));
    }
}

proof fn lemma_kept_prefix(a: Seq<char>, b: Seq<char>, n: int)
    requires
        0 <= n <= a.len(),
    ensures
        kept(a + b, n) == kept(a, n),
    decreases n,
{
    if n > 0 {
        lemma_kept_prefix(a, b, n - 1);
        assert((a + b)[n - 1] == a[n - 1]);
    }
}

proof fn lemma_snake_letters(s: Seq<char>, n: int)
    requires
        transform::all_ascii(s),
        0 <= n <= s.len(),
    ensures
        ({
            let out = transform::snake_case(s, n);
            all_lower(kept(out, out.len() as int)) == all_lower(kept(s, n))
        }),
    decreases n,
{
    let out = transform::snake_case(s, n);
    if n > 0 {
        lemma_snake_letters(s, n - 1);
        let before = transform::snake_case(s, n - 1);
        let piece = transform::snake_piece(s, n - 1);
        let c = s[n - 1];
        assert(rex::is_ascii(c));
        lemma_kept_append(before, piece, piece.len() as int);
        reveal_with_fuel(kept, 3);
        let mine = kept(piece, piece.len() as int);
        let b = kept(before, before.len() as int);
        if parts_words(c) {
            assert(mine =~= Seq::<char>::empty());
            assert(b + mine =~= b);
        } else {
            assert(piece.last() == lower_letter(c));
            assert(mine =~= seq![lower_letter(c)]);
            assert(b + mine =~= b.push(lower_letter(c)));
            assert(all_lower(b.push(lower_letter(c))) =~= all_lower(b).push(lower_letter(c)));
            assert(all_lower(kept(s, n - 1).push(c)) =~= all_lower(kept(s, n - 1)).push(
                lower_letter(c),
            ));
        }
    } else {
        assert(out =~= Seq::<char>::empty());
        assert(all_lower(kept(out, 0)) =~= all_lower(kept(s, 0)));
    }
}

// ---------------------------------------------------------------------------
// Lines
// ---------------------------------------------------------------------------

/// A transformation of the matches of a literal puts the literal in that case
/// wherever it stands, and leaves the rest of the line as it is: it is a
/// replace of the literal by its transformed self.
pub proof fn law_transform_is_a_replace(line: Seq<char>, pat: Seq<char>, mode: TransformMode)
    ensures
        transform::transform_line(line, MatcherView::Literal { pattern: pat }, mode)
            == pattern_laws::replaced(line, pat, transform::transformed(pat, mode), 0),
{
    let m = MatcherView::Literal { pattern: pat };
    let to = transform::transformed(pat, mode);
    let sp = m.spans(line, Seq::empty());
    assert(transform::transformed_spans(line, sp, mode) =~= m.spans(line, to)) by {
        assert forall|k: int| 0 <= k < sp.len() implies #[trigger] transform::transformed_spans(
            line,
            sp,
            mode,
        )[k] == m.spans(line, to)[k] by {
            pattern_laws::law_literal_matches_hold_the_literal(line, pat, Seq::empty(), k);
        }
    }
}

/// A transformation is done to the matches of a pattern, each on its own, and
/// to nothing else.
pub proof fn law_transform_touches_matches(line: Seq<char>, m: MatcherView, mode: TransformMode)
    ensures
        exists|sp: Seq<spans::Span>|
            {
                &&& #[trigger] spans::splice(line, sp) == transform::transform_line(line, m, mode)
                &&& sp.len() == m.spans(line, Seq::empty()).len()
                &&& forall|k: int| #![trigger sp[k]]
                    0 <= k < sp.len() ==> {
                        let found = m.spans(line, Seq::empty())[k];
                        &&& sp[k].start == found.start
                        &&& sp[k].end == found.end
                        &&& sp[k].replacement == transform::transformed(
                            line.subrange(found.start, found.end),
                            mode,
                        )
                    }
            },
{
    let sp = transform::transformed_spans(line, m.spans(line, Seq::empty()), mode);
    assert(spans::splice(line, sp) == transform::transform_line(line, m, mode));
}

} // verus!
