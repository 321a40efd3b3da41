//! Character indices and byte offsets of a text.
//!
//! A `str` is modelled by its sequence of characters. Offsets that leave the
//! library (match spans) and the byte searches inside it count bytes of the
//! UTF-8 encoding; `byte_pos` ties the two together.
use vstd::prelude::*;
use vstd::utf8::*;

verus! {

/// The byte offset at which character `i` of `s` starts.
pub open spec fn byte_pos(s: Seq<char>, i: int) -> int {
    encode_utf8(s.take(i)).len() as int
}

/// The UTF-8 encoding of a concatenation is the concatenation of the encodings.
pub proof fn lemma_encode_append(a: Seq<char>, b: Seq<char>)
    ensures
        encode_utf8(a + b) == encode_utf8(a) + encode_utf8(b),
    decreases a.len(),
{
    if a.len() == 0 {
        assert(a + b =~= b);
    } else {
        lemma_encode_append(a.drop_first(), b);
        assert((a + b).drop_first() =~= a.drop_first() + b);
        assert((a + b)[0] == a[0]);
    }
}

/// Every character takes one to four bytes.
pub proof fn lemma_encode_scalar_len(c: char)
    ensures
        1 <= encode_scalar(c as u32).len() <= 4,
{
}

/// A text has at most as many characters as bytes.
pub proof fn lemma_encode_len(s: Seq<char>)
    ensures
        s.len() <= encode_utf8(s).len(),
    decreases s.len(),
{
    if s.len() > 0 {
        lemma_encode_len(s.drop_first());
        lemma_encode_scalar_len(s[0]);
    }
}

/// One character encodes to the bytes of its scalar value.
pub proof fn lemma_encode_one(c: char)
    ensures
        encode_utf8(seq![c]) == encode_scalar(c as u32),
{
    assert(seq![c].drop_first() =~= Seq::<char>::empty());
    assert(encode_utf8(Seq::<char>::empty()) =~= Seq::<u8>::empty());
    assert(encode_utf8(seq![c]) =~= encode_scalar(c as u32));
}

/// The bytes between two character positions encode the characters between them.
pub proof fn lemma_slice(s: Seq<char>, i: int, j: int)
    requires
        0 <= i <= j <= s.len(),
    ensures
        0 <= byte_pos(s, i) <= byte_pos(s, j) <= encode_utf8(s).len(),
        byte_pos(s, j) - byte_pos(s, i) == encode_utf8(s.subrange(i, j)).len(),
        encode_utf8(s).subrange(byte_pos(s, i), byte_pos(s, j)) == encode_utf8(s.subrange(i, j)),
{
    let a = s.take(i);
    let m = s.subrange(i, j);
    let b = s.skip(j);
    assert(s =~= a + m + b);
    assert(s.take(j) =~= a + m);
    lemma_encode_append(a, m);
    lemma_encode_append(a + m, b);
    assert(encode_utf8(s).subrange(byte_pos(s, i), byte_pos(s, j)) =~= encode_utf8(m));
}

/// Position 0 is byte 0 and the end of the text is the end of its bytes.
pub proof fn lemma_byte_pos_ends(s: Seq<char>)
    ensures
        byte_pos(s, 0) == 0,
        byte_pos(s, s.len() as int) == encode_utf8(s).len(),
{
    assert(s.take(0) =~= Seq::<char>::empty());
    assert(s.take(s.len() as int) =~= s);
}

/// Later characters start at later bytes.
pub proof fn lemma_byte_pos_mono(s: Seq<char>, i: int, j: int)
    requires
        0 <= i <= j <= s.len(),
    ensures
        byte_pos(s, i) + (j - i) <= byte_pos(s, j),
{
    lemma_slice(s, i, j);
    lemma_encode_len(s.subrange(i, j));
}

/// Byte offsets identify character positions.
pub proof fn lemma_byte_pos_injective(s: Seq<char>, i: int, j: int)
    requires
        0 <= i <= s.len(),
        0 <= j <= s.len(),
    ensures
        byte_pos(s, i) < byte_pos(s, j) <==> i < j,
        byte_pos(s, i) == byte_pos(s, j) <==> i == j,
{
    if i < j {
        lemma_byte_pos_mono(s, i, j);
    } else if j < i {
        lemma_byte_pos_mono(s, j, i);
    }
}

/// Offsets inside a suffix are offsets of the text less where the suffix starts.
pub proof fn lemma_byte_pos_skip(s: Seq<char>, i: int, k: int)
    requires
        0 <= i,
        0 <= k,
        i + k <= s.len(),
    ensures
        byte_pos(s.skip(i), k) == byte_pos(s, i + k) - byte_pos(s, i),
{
    lemma_slice(s, i, i + k);
    assert(s.skip(i).take(k) =~= s.subrange(i, i + k));
}

/// Offsets inside a prefix are offsets of the text.
pub proof fn lemma_byte_pos_take(s: Seq<char>, i: int, k: int)
    requires
        0 <= k <= i <= s.len(),
    ensures
        byte_pos(s.take(i), k) == byte_pos(s, k),
{
    assert(s.take(i).take(k) =~= s.take(k));
}

/// Every character position is a UTF-8 boundary.
pub proof fn lemma_byte_pos_boundary(s: Seq<char>, i: int)
    requires
        0 <= i <= s.len(),
    ensures
        valid_utf8(encode_utf8(s)),
        is_char_boundary(encode_utf8(s), byte_pos(s, i)),
    decreases i,
{
    encode_utf8_valid_utf8(s);
    let bytes = encode_utf8(s);
    if i == 0 {
        lemma_byte_pos_ends(s);
    } else {
        let rest = s.drop_first();
        encode_utf8_first_scalar(s);
        assert(pop_first_scalar(bytes) =~= encode_utf8(rest));
        lemma_byte_pos_boundary(rest, i - 1);
        assert(s.skip(1) =~= rest);
        lemma_byte_pos_skip(s, 1, i - 1);
        assert(s.take(1) =~= seq![s[0]]);
        lemma_encode_one(s[0]);
        assert(byte_pos(s, 1) == length_of_first_scalar(bytes));
        lemma_byte_pos_mono(s, 0, i);
        lemma_byte_pos_ends(s);
        lemma_slice(s, i, s.len() as int);
    }
}

/// The characters that precede the UTF-8 boundary `p`.
pub proof fn lemma_boundary_index(s: Seq<char>, p: int) -> (i: int)
    requires
        is_char_boundary(encode_utf8(s), p),
        0 <= p <= encode_utf8(s).len(),
    ensures
        0 <= i <= s.len(),
        byte_pos(s, i) == p,
    decreases s.len(),
{
    lemma_byte_pos_ends(s);
    encode_utf8_valid_utf8(s);
    if p == 0 {
        0
    } else {
        let bytes = encode_utf8(s);
        let rest = s.drop_first();
        encode_utf8_first_scalar(s);
        let w = length_of_first_scalar(bytes);
        assert(pop_first_scalar(bytes) =~= encode_utf8(rest));
        encode_utf8_valid_utf8(rest);
        reveal_with_fuel(is_char_boundary, 2);
        assert(0 <= p - w <= encode_utf8(rest).len());
        let k = lemma_boundary_index(rest, p - w);
        assert(s.skip(1) =~= rest);
        lemma_byte_pos_skip(s, 1, k);
        assert(s.take(1) =~= seq![s[0]]);
        lemma_encode_one(s[0]);
        k + 1
    }
}

/// Bytes of a multi-byte encoding are not ASCII.
proof fn lemma_wide_scalar_not_ascii(c: u32)
    by (bit_vector)
    requires
        c >= 0x80,
    ensures
        leading_byte_width_2(c) >= 0x80,
        leading_byte_width_3(c) >= 0x80,
        leading_byte_width_4(c) >= 0x80,
        last_continuation_byte(c) >= 0x80,
        second_last_continuation_byte(c) >= 0x80,
        third_last_continuation_byte(c) >= 0x80,
{
}

/// An ASCII scalar is its own byte.
proof fn lemma_narrow_scalar(c: u32)
    by (bit_vector)
    requires
        c < 0x80,
    ensures
        leading_byte_width_1(c) == c,
{
}

/// An ASCII character, its byte and its scalar value are one number.
proof fn lemma_ascii_cast(c: char)
    ensures
        (c as u32) < 0x80 ==> c as u8 == c as u32 && (c as u8) as char == c,
{
}

/// An ASCII character is one byte, equal to its code.
pub proof fn lemma_ascii_at(s: Seq<char>, i: int)
    requires
        0 <= i < s.len(),
        (s[i] as u32) < 0x80,
    ensures
        byte_pos(s, i) < encode_utf8(s).len(),
        encode_utf8(s)[byte_pos(s, i)] == s[i] as u8,
        byte_pos(s, i + 1) == byte_pos(s, i) + 1,
{
    lemma_slice(s, i, i + 1);
    assert(s.subrange(i, i + 1) =~= seq![s[i]]);
    lemma_encode_one(s[i]);
    lemma_narrow_scalar(s[i] as u32);
    lemma_ascii_cast(s[i]);
    assert(encode_utf8(s).subrange(byte_pos(s, i), byte_pos(s, i + 1))[0] == s[i] as u8);
}

/// An ASCII byte of the encoding is a character of the text.
pub proof fn lemma_ascii_byte(s: Seq<char>, p: int) -> (i: int)
    requires
        0 <= p < encode_utf8(s).len(),
        encode_utf8(s)[p] < 0x80,
    ensures
        0 <= i < s.len(),
        byte_pos(s, i) == p,
        s[i] == encode_utf8(s)[p] as char,
    decreases s.len(),
{
    lemma_byte_pos_ends(s);
    if s.len() == 0 {
        assert(encode_utf8(s).len() == 0);
        0
    } else {
        let c = s[0] as u32;
        let head = encode_scalar(c);
        let rest = s.drop_first();
        assert(encode_utf8(s) == head + encode_utf8(rest));
        if p < head.len() {
            if c >= 0x80 {
                lemma_wide_scalar_not_ascii(c);
                assert(false);
            }
            lemma_narrow_scalar(c);
            lemma_ascii_cast(s[0]);
            0
        } else {
            let k = lemma_ascii_byte(rest, p - head.len());
            assert(s.skip(1) =~= rest);
            lemma_byte_pos_skip(s, 1, k);
            assert(s.take(1) =~= seq![s[0]]);
            lemma_encode_one(s[0]);
            k + 1
        }
    }
}

/// `str::len` is the number of bytes of a text. Like every allocation, a text
/// takes at most `isize::MAX` bytes.
#[verifier::external_body]
pub(crate) fn text_len(text: &str) -> (n: usize)
    ensures
        n == encode_utf8(text@).len(),
        n <= isize::MAX,
{
    text.len()
}

/// The text between two character positions, given by their byte offsets.
pub(crate) fn slice_str<'a>(text: &'a str, from: usize, to: usize, i: Ghost<int>, j: Ghost<int>) -> (r:
    &'a str)
    requires
        0 <= i@ <= j@ <= text@.len(),
        from == byte_pos(text@, i@),
        to == byte_pos(text@, j@),
    ensures
        r@ == text@.subrange(i@, j@),
{
    proof {
        lemma_byte_pos_boundary(text@, i@);
        lemma_byte_pos_boundary(text@, j@);
        lemma_slice(text@, 0, j@);
        lemma_slice(text@, i@, j@);
        lemma_byte_pos_ends(text@);
        assert(text@.subrange(0, j@) =~= text@.take(j@));
    }
    let head = text.split_at(to).0;
    proof {
        encode_utf8_decode_utf8(head@);
        encode_utf8_decode_utf8(text@.take(j@));
        assert(head@ == text@.take(j@));
        lemma_byte_pos_take(text@, j@, i@);
        lemma_byte_pos_boundary(head@, i@);
        lemma_slice(head@, i@, j@);
        lemma_byte_pos_ends(head@);
        assert(head@.subrange(i@, j@) =~= text@.subrange(i@, j@));
    }
    let r = head.split_at(from).1;
    proof {
        encode_utf8_decode_utf8(r@);
        encode_utf8_decode_utf8(text@.subrange(i@, j@));
    }
    r
}

} // verus!
