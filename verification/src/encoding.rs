//! Source-encoding detection and transcoding.
//!
//! The engine works on text; this module converts file bytes to and from text
//! and remembers enough to write a file back in its original encoding.
//! Detection goes by the byte-order mark alone: UTF-16 without one cannot be
//! told from binary data by a cheap check.
use vstd::prelude::*;
use vstd::slice::slice_subrange;
use vstd::utf8::*;

use crate::strings::{owned, str_eq};

verus! {

/// The byte-order mark of UTF-8.
pub const UTF8_BOM: [u8; 3] = [0xEF, 0xBB, 0xBF];

/// The byte-order mark of UTF-16, low byte first.
pub const UTF16_LE_BOM: [u8; 2] = [0xFF, 0xFE];

/// The byte-order mark of UTF-16, high byte first.
pub const UTF16_BE_BOM: [u8; 2] = [0xFE, 0xFF];

/// The detected on-disk encoding of a file.
///
/// It is carried from read to write, so that a file keeps its encoding and its
/// byte-order mark across an edit, and its tag is kept in the undo log.
#[derive(Debug, Clone, Copy, PartialEq, Eq, Structural)]
pub enum SourceEncoding {
    /// Plain UTF-8 without a byte-order mark (the default).
    Utf8,
    /// UTF-8 with a byte-order mark.
    Utf8Bom,
    /// UTF-16 little-endian with a byte-order mark.
    Utf16Le,
    /// UTF-16 big-endian with a byte-order mark.
    Utf16Be,
}

impl Default for SourceEncoding {
    fn default() -> (e: SourceEncoding)
        ensures
            e == SourceEncoding::Utf8,
    {
        SourceEncoding::Utf8
    }
}

/// The tag of an encoding.
pub open spec fn encoding_tag(e: SourceEncoding) -> Seq<char> {
    match e {
        SourceEncoding::Utf8 => "utf-8"@,
        SourceEncoding::Utf8Bom => "utf-8-bom"@,
        SourceEncoding::Utf16Le => "utf-16le"@,
        SourceEncoding::Utf16Be => "utf-16be"@,
    }
}

/// The encoding that a tag denotes.
pub open spec fn encoding_of_tag(tag: Seq<char>) -> Option<SourceEncoding> {
    if tag == "utf-8"@ {
        Some(SourceEncoding::Utf8)
    } else if tag == "utf-8-bom"@ {
        Some(SourceEncoding::Utf8Bom)
    } else if tag == "utf-16le"@ {
        Some(SourceEncoding::Utf16Le)
    } else if tag == "utf-16be"@ {
        Some(SourceEncoding::Utf16Be)
    } else {
        None
    }
}

impl SourceEncoding {
    /// Stable tag for the undo log.
    pub fn tag(self) -> (r: &'static str)
        ensures
            r@ == encoding_tag(self),
    {
        match self {
            SourceEncoding::Utf8 => "utf-8",
            SourceEncoding::Utf8Bom => "utf-8-bom",
            SourceEncoding::Utf16Le => "utf-16le",
            SourceEncoding::Utf16Be => "utf-16be",
        }
    }

    /// Reads a tag; `None` for an unknown one.
    pub fn from_tag(tag: &str) -> (r: Option<SourceEncoding>)
        ensures
            r == encoding_of_tag(tag@),
    {
        if str_eq(tag, "utf-8") {
            Some(SourceEncoding::Utf8)
        } else if str_eq(tag, "utf-8-bom") {
            Some(SourceEncoding::Utf8Bom)
        } else if str_eq(tag, "utf-16le") {
            Some(SourceEncoding::Utf16Le)
        } else if str_eq(tag, "utf-16be") {
            Some(SourceEncoding::Utf16Be)
        } else {
            None
        }
    }
}

/// Reading back the tag of an encoding gives the encoding.
pub proof fn law_tag_round_trip(e: SourceEncoding)
    ensures
        encoding_of_tag(encoding_tag(e)) == Some(e),
{
    reveal_strlit("utf-8");
    reveal_strlit("utf-8-bom");
    reveal_strlit("utf-16le");
    reveal_strlit("utf-16be");
    assert("utf-16le"@[6] != "utf-16be"@[6]);
    assert("utf-8"@.len() == 5);
    assert("utf-8-bom"@.len() == 9);
    assert("utf-16le"@.len() == 8);
    assert("utf-16be"@.len() == 8);
}

// ---------------------------------------------------------------------------
// UTF-16
// ---------------------------------------------------------------------------

/// The code units of a character: itself, or a surrogate pair.
pub open spec fn char_units(c: char) -> Seq<u16> {
    let v = c as u32;
    if v < 0x10000 {
        seq![v as u16]
    } else {
        let w = (v - 0x10000) as nat;
        seq![(0xD800 + w / 1024) as u16, (0xDC00 + w % 1024) as u16]
    }
}

/// The code units of a text.
pub open spec fn utf16_units(s: Seq<char>) -> Seq<u16>
    decreases s.len(),
{
    if s.len() == 0 {
        Seq::empty()
    } else {
        char_units(s[0]) + utf16_units(s.skip(1))
    }
}

pub open spec fn is_high(u: u16) -> bool {
    0xD800 <= u < 0xDC00
}

pub open spec fn is_low(u: u16) -> bool {
    0xDC00 <= u < 0xE000
}

/// The character of a surrogate pair.
pub open spec fn pair_char(high: u16, low: u16) -> char {
    (0x10000 + (high - 0xD800) * 1024 + (low - 0xDC00)) as char
}

/// The text that code units stand for; `None` where a surrogate is not paired.
pub open spec fn utf16_text(u: Seq<u16>) -> Option<Seq<char>>
    decreases u.len(),
{
    if u.len() == 0 {
        Some(Seq::empty())
    } else if !is_high(u[0]) && !is_low(u[0]) {
        match utf16_text(u.skip(1)) {
            Some(rest) => Some(seq![u[0] as char] + rest),
            None => None,
        }
    } else if is_high(u[0]) && u.len() >= 2 && is_low(u[1]) {
        match utf16_text(u.skip(2)) {
            Some(rest) => Some(seq![pair_char(u[0], u[1])] + rest),
            None => None,
        }
    } else {
        None
    }
}

/// The two bytes of a code unit.
pub open spec fn unit_bytes(u: u16, big_endian: bool) -> Seq<u8> {
    let low = (u % 256) as u8;
    let high = (u / 256) as u8;
    if big_endian {
        seq![high, low]
    } else {
        seq![low, high]
    }
}

/// The bytes of code units.
pub open spec fn units_bytes(u: Seq<u16>, big_endian: bool) -> Seq<u8>
    decreases u.len(),
{
    if u.len() == 0 {
        Seq::empty()
    } else {
        unit_bytes(u[0], big_endian) + units_bytes(u.skip(1), big_endian)
    }
}

/// The code unit of two bytes.
pub open spec fn bytes_unit(a: u8, b: u8, big_endian: bool) -> u16 {
    if big_endian {
        (a * 256 + b) as u16
    } else {
        (b * 256 + a) as u16
    }
}

/// The code units of an even number of bytes.
pub open spec fn bytes_units(b: Seq<u8>, big_endian: bool) -> Seq<u16> {
    Seq::new(b.len() / 2, |i: int| bytes_unit(b[2 * i], b[2 * i + 1], big_endian))
}

// ---------------------------------------------------------------------------
// Files
// ---------------------------------------------------------------------------

/// The bytes that a file in an encoding starts with.
pub open spec fn bom(e: SourceEncoding) -> Seq<u8> {
    match e {
        SourceEncoding::Utf8 => Seq::empty(),
        SourceEncoding::Utf8Bom => seq![0xEFu8, 0xBBu8, 0xBFu8],
        SourceEncoding::Utf16Le => seq![0xFFu8, 0xFEu8],
        SourceEncoding::Utf16Be => seq![0xFEu8, 0xFFu8],
    }
}

/// The bytes of a text in an encoding, without the byte-order mark.
pub open spec fn payload(text: Seq<char>, e: SourceEncoding) -> Seq<u8> {
    match e {
        SourceEncoding::Utf8 => encode_utf8(text),
        SourceEncoding::Utf8Bom => encode_utf8(text),
        SourceEncoding::Utf16Le => units_bytes(utf16_units(text), false),
        SourceEncoding::Utf16Be => units_bytes(utf16_units(text), true),
    }
}

/// The bytes of a text in an encoding.
pub open spec fn encoded(text: Seq<char>, e: SourceEncoding) -> Seq<u8> {
    bom(e) + payload(text, e)
}

/// Whether bytes start with the byte-order mark of an encoding.
pub open spec fn has_bom(bytes: Seq<u8>, e: SourceEncoding) -> bool {
    bytes.len() >= bom(e).len() && bytes.take(bom(e).len() as int) == bom(e)
}

/// The encoding that bytes are taken to be in.
pub open spec fn detected(bytes: Seq<u8>) -> SourceEncoding {
    if has_bom(bytes, SourceEncoding::Utf8Bom) {
        SourceEncoding::Utf8Bom
    } else if has_bom(bytes, SourceEncoding::Utf16Le) {
        SourceEncoding::Utf16Le
    } else if has_bom(bytes, SourceEncoding::Utf16Be) {
        SourceEncoding::Utf16Be
    } else {
        SourceEncoding::Utf8
    }
}

/// Why bytes are no text.
#[derive(Debug, Clone, PartialEq, Eq)]
pub enum DecodeError {
    /// The bytes are not UTF-8; says where.
    InvalidUtf8(String),
    /// An odd number of bytes behind a UTF-16 byte-order mark.
    TruncatedUtf16,
    /// A surrogate that is not paired.
    InvalidUtf16,
}

/// What a [`DecodeError`] says.
#[verifier::ext_equal]
pub enum DecodeErrorView {
    InvalidUtf8(Seq<char>),
    TruncatedUtf16,
    InvalidUtf16,
}

impl View for DecodeError {
    type V = DecodeErrorView;

    open spec fn view(&self) -> DecodeErrorView {
        match *self {
            DecodeError::InvalidUtf8(detail) => DecodeErrorView::InvalidUtf8(detail@),
            DecodeError::TruncatedUtf16 => DecodeErrorView::TruncatedUtf16,
            DecodeError::InvalidUtf16 => DecodeErrorView::InvalidUtf16,
        }
    }
}

impl DecodeError {
    /// The error in words.
    pub fn message(&self) -> (r: String)
        ensures
            r@ == match self@ {
                DecodeErrorView::InvalidUtf8(detail) => detail,
                DecodeErrorView::TruncatedUtf16 => "truncated UTF-16: odd number of payload bytes"@,
                DecodeErrorView::InvalidUtf16 => "invalid utf-16: lone surrogate found"@,
            },
    {
        match self {
            DecodeError::InvalidUtf8(detail) => detail.clone(),
            DecodeError::TruncatedUtf16 => owned("truncated UTF-16: odd number of payload bytes"),
            DecodeError::InvalidUtf16 => owned("invalid utf-16: lone surrogate found"),
        }
    }
}

/// The `Display` text of the error that `String::from_utf8` gives.
pub uninterp spec fn utf8_error_text(bytes: Seq<u8>) -> Seq<char>;

/// The text of bytes that are UTF-8, or why they are not.
pub open spec fn utf8_result(bytes: Seq<u8>) -> Result<Seq<char>, DecodeErrorView> {
    if valid_utf8(bytes) {
        Ok(decode_utf8(bytes))
    } else {
        Err(DecodeErrorView::InvalidUtf8(utf8_error_text(bytes)))
    }
}

/// The text of bytes that are UTF-16, or why they are not.
pub open spec fn utf16_result(bytes: Seq<u8>, big_endian: bool) -> Result<Seq<char>, DecodeErrorView> {
    if bytes.len() % 2 != 0 {
        Err(DecodeErrorView::TruncatedUtf16)
    } else {
        match utf16_text(bytes_units(bytes, big_endian)) {
            Some(text) => Ok(text),
            None => Err(DecodeErrorView::InvalidUtf16),
        }
    }
}

/// The text of a file, or why it is none.
pub open spec fn decoded(bytes: Seq<u8>) -> Result<Seq<char>, DecodeErrorView> {
    let rest = bytes.skip(bom(detected(bytes)).len() as int);
    match detected(bytes) {
        SourceEncoding::Utf8 => utf8_result(rest),
        SourceEncoding::Utf8Bom => utf8_result(rest),
        SourceEncoding::Utf16Le => utf16_result(rest, false),
        SourceEncoding::Utf16Be => utf16_result(rest, true),
    }
}

// ---------------------------------------------------------------------------
// Execution
// ---------------------------------------------------------------------------

/// `char::from_u32` gives the character of a Unicode scalar value, and `None`
/// for any other number.
pub assume_specification[ char::from_u32 ](i: u32) -> (r: Option<char>)
    ensures
        is_scalar(i) ==> r == Some(i as char),
        !is_scalar(i) ==> r is None,
;

/// `String::from_utf8` gives the text of bytes that are UTF-8, and an error
/// with its own words for any others.
#[verifier::external_body]
pub(crate) fn string_from_utf8(bytes: Vec<u8>) -> (r: Result<String, String>)
    ensures
        match r {
            Ok(s) => valid_utf8(bytes@) && s@ == decode_utf8(bytes@),
            Err(e) => !valid_utf8(bytes@) && e@ == utf8_error_text(bytes@),
        },
{
    String::from_utf8(bytes).map_err(|e| e.to_string())
}

/// Whether bytes start with two given bytes.
fn starts_with_pair(bytes: &[u8], a: u8, b: u8) -> (r: bool)
    ensures
        r == (bytes@.len() >= 2 && bytes@.take(2) == seq![a, b]),
{
    if bytes.len() < 2 {
        return false;
    }
    let r = bytes[0] == a && bytes[1] == b;
    proof {
        if r {
            assert(bytes@.take(2) =~= seq![a, b]);
        } else {
            assert(bytes@.take(2)[0] == bytes@[0]);
            assert(bytes@.take(2)[1] == bytes@[1]);
        }
    }
    r
}

/// Whether bytes start with the UTF-8 byte-order mark.
pub fn has_utf8_bom(prefix: &[u8]) -> (r: bool)
    ensures
        r == has_bom(prefix@, SourceEncoding::Utf8Bom),
{
    if prefix.len() < 3 {
        return false;
    }
    let r = prefix[0] == 0xEFu8 && prefix[1] == 0xBBu8 && prefix[2] == 0xBFu8;
    proof {
        if r {
            assert(prefix@.take(3) =~= bom(SourceEncoding::Utf8Bom));
        } else {
            assert(prefix@.take(3)[0] == prefix@[0]);
            assert(prefix@.take(3)[1] == prefix@[1]);
            assert(prefix@.take(3)[2] == prefix@[2]);
        }
    }
    r
}

/// Whether bytes start with a UTF-16 byte-order mark. Such text is full of NUL
/// bytes and would otherwise be taken for binary data.
pub fn has_utf16_bom(prefix: &[u8]) -> (r: bool)
    ensures
        r == (has_bom(prefix@, SourceEncoding::Utf16Le) || has_bom(
            prefix@,
            SourceEncoding::Utf16Be,
        )),
{
    starts_with_pair(prefix, 0xFFu8, 0xFEu8) || starts_with_pair(prefix, 0xFEu8, 0xFFu8)
}

/// Decodes UTF-16 code units.
fn decode_units(units: &Vec<u16>) -> (r: Option<String>)
    ensures
        utf16_text(units@) == match r {
            Some(s) => Some(s@),
            None => None::<Seq<char>>,
        },
{
    let mut out = String::new();
    let mut i: usize = 0;
    proof {
        assert(units@.skip(0) =~= units@);
        lemma_prepend_nothing(units@);
    }
    while i < units.len()
        invariant
            i <= units@.len(),
            utf16_text(units@) == prepended(out@, utf16_text(units@.skip(i as int))),
        decreases units@.len() - i,
    {
        let u = units[i];
        let ghost rest = units@.skip(i as int);
        let ghost before = out@;
        proof {
            assert(rest[0] == u);
        }
        if u < 0xD800 || u >= 0xE000 {
            match char::from_u32(u as u32) {
                Some(c) => {
                    out.push(c);
                    proof {
                        assert(c == u as char);
                        assert(rest.skip(1) =~= units@.skip(i + 1));
                        lemma_prepend_one(before, c, utf16_text(units@.skip(i + 1)));
                    }
                },
                None => {
                    return None;
                },
            }
            i += 1;
        } else if u < 0xDC00 && i + 1 < units.len() && units[i + 1] >= 0xDC00 && units[i + 1]
            < 0xE000 {
            let low = units[i + 1];
            let v: u32 = 0x10000 + (u as u32 - 0xD800) * 1024 + (low as u32 - 0xDC00);
            match char::from_u32(v) {
                Some(c) => {
                    out.push(c);
                    proof {
                        assert(rest[1] == low);
                        assert(c == pair_char(u, low));
                        assert(rest.skip(2) =~= units@.skip(i + 2));
                        lemma_prepend_one(before, c, utf16_text(units@.skip(i + 2)));
                    }
                },
                None => {
                    return None;
                },
            }
            i += 2;
        } else {
            proof {
                if i + 1 < units@.len() {
                    assert(rest[1] == units@[i + 1]);
                }
            }
            return None;
        }
    }
    proof {
        assert(units@.skip(i as int) =~= Seq::<u16>::empty());
        assert(out@ + Seq::<char>::empty() =~= out@);
    }
    Some(out)
}

/// A text in front of another, if there is one.
spec fn prepended(a: Seq<char>, b: Option<Seq<char>>) -> Option<Seq<char>> {
    match b {
        Some(s) => Some(a + s),
        None => None,
    }
}

proof fn lemma_prepend_nothing(u: Seq<u16>)
    ensures
        prepended(Seq::empty(), utf16_text(u)) == utf16_text(u),
{
    match utf16_text(u) {
        Some(s) => {
            assert(Seq::<char>::empty() + s =~= s);
        },
        None => {},
    }
}

proof fn lemma_prepend_one(a: Seq<char>, c: char, rest: Option<Seq<char>>)
    ensures
        prepended(
            a,
            match rest {
                Some(s) => Some(seq![c] + s),
                None => None,
            },
        ) == prepended(a.push(c), rest),
{
    match rest {
        Some(s) => {
            assert(a + (seq![c] + s) =~= a.push(c) + s);
        },
        None => {},
    }
}

/// Decodes UTF-16 bytes.
fn decode_utf16(bytes: &[u8], big_endian: bool) -> (r: Result<String, DecodeError>)
    ensures
        match r {
            Ok(s) => utf16_result(bytes@, big_endian) == Ok::<Seq<char>, DecodeErrorView>(s@),
            Err(e) => utf16_result(bytes@, big_endian) == Err::<Seq<char>, DecodeErrorView>(e@),
        },
{
    if bytes.len() % 2 != 0 {
        return Err(DecodeError::TruncatedUtf16);
    }
    let total: usize = bytes.len();
    let n: usize = total / 2;
    let mut units: Vec<u16> = Vec::new();
    let mut i: usize = 0;
    while i < n
        invariant
            total == bytes@.len(),
            total % 2 == 0,
            n == total / 2,
            i <= n,
            units@.len() == i,
            forall|k: int| #![trigger units@[k]]
                0 <= k < i ==> units@[k] == bytes_units(bytes@, big_endian)[k],
        decreases n - i,
    {
        let a = bytes[2 * i];
        let b = bytes[2 * i + 1];
        let unit: u16 = if big_endian {
            a as u16 * 256 + b as u16
        } else {
            b as u16 * 256 + a as u16
        };
        units.push(unit);
        i += 1;
    }
    proof {
        assert(units@ =~= bytes_units(bytes@, big_endian));
    }
    match decode_units(&units) {
        Some(s) => Ok(s),
        None => Err(DecodeError::InvalidUtf16),
    }
}

/// Decodes file bytes into text, detecting the encoding from the byte-order mark.
///
/// Malformed input (bytes that are not UTF-8, an odd number of UTF-16 payload
/// bytes, a surrogate that is not paired) is an error.
pub fn decode(bytes: Vec<u8>) -> (r: Result<(String, SourceEncoding), DecodeError>)
    ensures
        match r {
            Ok((text, e)) => decoded(bytes@) == Ok::<Seq<char>, DecodeErrorView>(text@) && e
                == detected(bytes@),
            Err(e) => decoded(bytes@) == Err::<Seq<char>, DecodeErrorView>(e@),
        },
{
    let total = bytes.len();
    if has_utf8_bom(bytes.as_slice()) {
        let rest = vstd::slice::slice_to_vec(slice_subrange(bytes.as_slice(), 3, total));
        proof {
            assert(rest@ =~= bytes@.skip(3));
        }
        return match string_from_utf8(rest) {
            Ok(text) => Ok((text, SourceEncoding::Utf8Bom)),
            Err(e) => Err(DecodeError::InvalidUtf8(e)),
        };
    }
    if starts_with_pair(bytes.as_slice(), 0xFFu8, 0xFEu8) {
        let rest = slice_subrange(bytes.as_slice(), 2, total);
        proof {
            assert(rest@ =~= bytes@.skip(2));
        }
        return match decode_utf16(rest, false) {
            Ok(text) => Ok((text, SourceEncoding::Utf16Le)),
            Err(e) => Err(e),
        };
    }
    if starts_with_pair(bytes.as_slice(), 0xFEu8, 0xFFu8) {
        let rest = slice_subrange(bytes.as_slice(), 2, total);
        proof {
            assert(rest@ =~= bytes@.skip(2));
        }
        return match decode_utf16(rest, true) {
            Ok(text) => Ok((text, SourceEncoding::Utf16Be)),
            Err(e) => Err(e),
        };
    }
    proof {
        assert(bytes@.skip(0) =~= bytes@);
    }
    match string_from_utf8(bytes) {
        Ok(text) => Ok((text, SourceEncoding::Utf8)),
        Err(e) => Err(DecodeError::InvalidUtf8(e)),
    }
}

/// Appends the bytes of one code unit.
fn push_unit(out: &mut Vec<u8>, unit: u16, big_endian: bool)
    ensures
        final(out)@ == old(out)@ + unit_bytes(unit, big_endian),
{
    let low: u8 = (unit % 256) as u8;
    let high: u8 = (unit / 256) as u8;
    if big_endian {
        out.push(high);
        out.push(low);
    } else {
        out.push(low);
        out.push(high);
    }
    proof {
        assert(out@ =~= old(out)@ + unit_bytes(unit, big_endian));
    }
}

/// The bytes of the first characters of a text, as UTF-16.
spec fn units_bytes_to(s: Seq<char>, n: int, big_endian: bool) -> Seq<u8> {
    units_bytes(utf16_units(s.take(n)), big_endian)
}

proof fn lemma_units_append(a: Seq<char>, b: Seq<char>)
    ensures
        utf16_units(a + b) == utf16_units(a) + utf16_units(b),
    decreases a.len(),
{
    if a.len() == 0 {
        assert(a + b =~= b);
        assert(utf16_units(a) + utf16_units(b) =~= utf16_units(b));
    } else {
        lemma_units_append(a.skip(1), b);
        assert((a + b).skip(1) =~= a.skip(1) + b);
        assert(utf16_units(a + b) =~= utf16_units(a) + utf16_units(b));
    }
}

proof fn lemma_bytes_append(a: Seq<u16>, b: Seq<u16>, big_endian: bool)
    ensures
        units_bytes(a + b, big_endian) == units_bytes(a, big_endian) + units_bytes(b, big_endian),
    decreases a.len(),
{
    if a.len() == 0 {
        assert(a + b =~= b);
        assert(units_bytes(a, big_endian) + units_bytes(b, big_endian) =~= units_bytes(
            b,
            big_endian,
        ));
    } else {
        lemma_bytes_append(a.skip(1), b, big_endian);
        assert((a + b).skip(1) =~= a.skip(1) + b);
        assert(units_bytes(a + b, big_endian) =~= units_bytes(a, big_endian) + units_bytes(
            b,
            big_endian,
        ));
    }
}

proof fn lemma_one_unit(u: u16, big_endian: bool)
    ensures
        units_bytes(seq![u], big_endian) == unit_bytes(u, big_endian),
{
    reveal_with_fuel(units_bytes, 2);
    assert(seq![u].skip(1) =~= Seq::<u16>::empty());
    assert(units_bytes(seq![u], big_endian) =~= unit_bytes(u, big_endian));
}

proof fn lemma_one_char(c: char)
    ensures
        utf16_units(seq![c]) == char_units(c),
{
    reveal_with_fuel(utf16_units, 2);
    assert(seq![c].skip(1) =~= Seq::<char>::empty());
    assert(utf16_units(seq![c]) =~= char_units(c));
}

/// Appends a text as UTF-16.
fn encode_utf16(out: &mut Vec<u8>, text: &str, big_endian: bool)
    ensures
        final(out)@ == old(out)@ + units_bytes(utf16_units(text@), big_endian),
{
    let chars = crate::strings::chars_of(text);
    let ghost start = out@;
    let mut i: usize = 0;
    proof {
        assert(chars@.take(0) =~= Seq::<char>::empty());
        assert(start + units_bytes_to(chars@, 0, big_endian) =~= start);
    }
    while i < chars.len()
        invariant
            chars@ == text@,
            i <= chars@.len(),
            out@ == start + units_bytes_to(chars@, i as int, big_endian),
        decreases chars@.len() - i,
    {
        let c = chars[i];
        let v = c as u32;
        let ghost before = out@;
        proof {
            let done = chars@.take(i as int);
            assert(chars@.take(i + 1) =~= done + seq![c]);
            lemma_units_append(done, seq![c]);
            lemma_one_char(c);
            lemma_bytes_append(utf16_units(done), char_units(c), big_endian);
        }
        if v < 0x10000 {
            push_unit(out, v as u16, big_endian);
            proof {
                lemma_one_unit(v as u16, big_endian);
                assert(char_units(c) =~= seq![v as u16]);
            }
        } else {
            let w: u32 = v - 0x10000;
            let high: u16 = (0xD800 + w / 1024) as u16;
            let low: u16 = (0xDC00 + w % 1024) as u16;
            push_unit(out, high, big_endian);
            push_unit(out, low, big_endian);
            proof {
                lemma_one_unit(high, big_endian);
                lemma_one_unit(low, big_endian);
                lemma_bytes_append(seq![high], seq![low], big_endian);
                assert(char_units(c) =~= seq![high] + seq![low]);
            }
        }
        i += 1;
        proof {
            assert(out@ =~= before + units_bytes(char_units(c), big_endian));
            assert(out@ =~= start + units_bytes_to(chars@, i as int, big_endian));
        }
    }
    proof {
        assert(chars@.take(chars@.len() as int) =~= text@);
    }
}

/// Encodes text back to bytes, with the byte-order mark that was there on read.
pub fn encode(text: &str, encoding: SourceEncoding) -> (r: Vec<u8>)
    ensures
        r@ == encoded(text@, encoding),
{
    let mut out: Vec<u8> = Vec::new();
    match encoding {
        SourceEncoding::Utf8 => {
            out.extend_from_slice(text.as_bytes());
        },
        SourceEncoding::Utf8Bom => {
            out.push(0xEFu8);
            out.push(0xBBu8);
            out.push(0xBFu8);
            proof {
                assert(out@ =~= bom(encoding));
            }
            out.extend_from_slice(text.as_bytes());
        },
        SourceEncoding::Utf16Le => {
            out.push(0xFFu8);
            out.push(0xFEu8);
            proof {
                assert(out@ =~= bom(encoding));
            }
            encode_utf16(&mut out, text, false);
        },
        SourceEncoding::Utf16Be => {
            out.push(0xFEu8);
            out.push(0xFFu8);
            proof {
                assert(out@ =~= bom(encoding));
            }
            encode_utf16(&mut out, text, true);
        },
    }
    proof {
        assert(out@ =~= encoded(text@, encoding));
    }
    out
}

// ---------------------------------------------------------------------------
// Laws
// ---------------------------------------------------------------------------

proof fn lemma_text_of_char_units(c: char, rest: Seq<u16>)
    ensures
        utf16_text(char_units(c) + rest) == match utf16_text(rest) {
            Some(s) => Some(seq![c] + s),
            None => None,
        },
{
    let v = c as u32;
    let u = char_units(c) + rest;
    if v < 0x10000 {
        assert(u.skip(1) =~= rest);
        assert(u[0] as char == c);
    } else {
        let w = (v - 0x10000) as nat;
        assert(u.skip(2) =~= rest);
        assert(w / 1024 < 1024);
        assert(pair_char(u[0], u[1]) == c);
    }
}

proof fn lemma_utf16_round_trip(s: Seq<char>)
    ensures
        utf16_text(utf16_units(s)) == Some(s),
    decreases s.len(),
{
    if s.len() > 0 {
        lemma_utf16_round_trip(s.skip(1));
        lemma_text_of_char_units(s[0], utf16_units(s.skip(1)));
        assert(seq![s[0]] + s.skip(1) =~= s);
    } else {
        assert(s =~= Seq::<char>::empty());
    }
}

proof fn lemma_units_of_text(u: Seq<u16>)
    requires
        utf16_text(u) is Some,
    ensures
        utf16_units(utf16_text(u)->0) == u,
    decreases u.len(),
{
    if u.len() > 0 {
        let s = utf16_text(u)->0;
        if !is_high(u[0]) && !is_low(u[0]) {
            lemma_units_of_text(u.skip(1));
            assert(s.skip(1) =~= utf16_text(u.skip(1))->0);
            assert(char_units(s[0]) =~= seq![u[0]]);
            assert(seq![u[0]] + u.skip(1) =~= u);
        } else {
            lemma_units_of_text(u.skip(2));
            assert(s.skip(1) =~= utf16_text(u.skip(2))->0);
            assert(char_units(s[0]) =~= seq![u[0], u[1]]);
            assert(seq![u[0], u[1]] + u.skip(2) =~= u);
        }
    } else {
        assert(utf16_units(utf16_text(u)->0) =~= u);
    }
}

proof fn lemma_unit_bytes(u: u16, big_endian: bool)
    ensures
        bytes_unit(unit_bytes(u, big_endian)[0], unit_bytes(u, big_endian)[1], big_endian) == u,
{
}

proof fn lemma_bytes_units_round_trip(u: Seq<u16>, big_endian: bool)
    ensures
        units_bytes(u, big_endian).len() == 2 * u.len(),
        bytes_units(units_bytes(u, big_endian), big_endian) == u,
    decreases u.len(),
{
    let b = units_bytes(u, big_endian);
    if u.len() > 0 {
        let rest = units_bytes(u.skip(1), big_endian);
        lemma_bytes_units_round_trip(u.skip(1), big_endian);
        lemma_unit_bytes(u[0], big_endian);
        assert(b =~= unit_bytes(u[0], big_endian) + rest);
        let back = bytes_units(b, big_endian);
        assert forall|i: int| 0 <= i < u.len() implies back[i] == u[i] by {
            if i > 0 {
                assert(b[2 * i] == rest[2 * (i - 1)]);
                assert(b[2 * i + 1] == rest[2 * (i - 1) + 1]);
                assert(bytes_units(rest, big_endian)[i - 1] == u.skip(1)[i - 1]);
            }
        }
        assert(back =~= u);
    } else {
        assert(bytes_units(b, big_endian) =~= u);
    }
}

proof fn lemma_units_bytes_round_trip(b: Seq<u8>, big_endian: bool)
    requires
        b.len() % 2 == 0,
    ensures
        units_bytes(bytes_units(b, big_endian), big_endian) == b,
    decreases b.len(),
{
    let u = bytes_units(b, big_endian);
    if b.len() > 0 {
        let rest = b.skip(2);
        lemma_units_bytes_round_trip(rest, big_endian);
        assert(u.skip(1) =~= bytes_units(rest, big_endian));
        assert(unit_bytes(u[0], big_endian) =~= seq![b[0], b[1]]);
        assert(seq![b[0], b[1]] + rest =~= b);
    } else {
        assert(units_bytes(u, big_endian) =~= b);
    }
}

/// The first byte of UTF-8 text is no byte of a UTF-16 byte-order mark.
proof fn lemma_first_byte(c: u32)
    by (bit_vector)
    requires
        c <= 0x10FFFF,
    ensures
        c <= 0x7F ==> leading_byte_width_1(c) < 0xFE,
        leading_byte_width_2(c) < 0xFE,
        leading_byte_width_3(c) < 0xFE,
        leading_byte_width_4(c) < 0xFE,
{
}

/// A three-byte character that starts like a byte-order mark is U+FEFF.
proof fn lemma_bom_char(c: u32)
    by (bit_vector)
    requires
        c <= 0x10FFFF,
    ensures
        (c <= 0x7F ==> leading_byte_width_1(c) != 0xEF) && leading_byte_width_2(c) != 0xEF
            && leading_byte_width_4(c) != 0xEF,
        c >= 0x800 && c <= 0xFFFF && leading_byte_width_3(c) == 0xEF
            && second_last_continuation_byte(c) == 0xBB && last_continuation_byte(c) == 0xBF
            ==> c == 0xFEFF,
{
}

/// What was written is read back: decoding the bytes of a text gives the text
/// and its encoding. The one exception is plain UTF-8 text that itself starts
/// with the character that serves as the byte-order mark.
pub proof fn law_decode_of_encode(text: Seq<char>, e: SourceEncoding)
    requires
        e == SourceEncoding::Utf8 ==> text.len() == 0 || text[0] != '\u{FEFF}',
    ensures
        detected(encoded(text, e)) == e,
        decoded(encoded(text, e)) == Ok::<Seq<char>, DecodeErrorView>(text),
{
    let bytes = encoded(text, e);
    let body = payload(text, e);
    assert(bytes.skip(bom(e).len() as int) =~= body);
    assert(bytes.take(bom(e).len() as int) =~= bom(e));
    encode_utf8_valid_utf8(text);
    encode_utf8_decode_utf8(text);
    lemma_utf16_round_trip(text);
    match e {
        SourceEncoding::Utf8 => {
            assert(bytes =~= encode_utf8(text));
            if text.len() > 0 {
                let c = text[0] as u32;
                char_is_scalar(text[0]);
                lemma_first_byte(c);
                lemma_bom_char(c);
                let head = encode_scalar(c);
                assert(bytes == head + encode_utf8(text.drop_first()));
                assert(bytes[0] == head[0]);
                if has_bom(bytes, SourceEncoding::Utf8Bom) {
                    assert(bytes.take(3)[0] == bytes[0]);
                    assert(bytes.take(3)[1] == bytes[1]);
                    assert(bytes.take(3)[2] == bytes[2]);
                    assert(head.len() == 3);
                    assert(bytes[1] == head[1] && bytes[2] == head[2]);
                    assert(c == 0xFEFF);
                    assert(false);
                }
                if has_bom(bytes, SourceEncoding::Utf16Le) {
                    assert(bytes.take(2)[0] == bytes[0]);
                }
                if has_bom(bytes, SourceEncoding::Utf16Be) {
                    assert(bytes.take(2)[0] == bytes[0]);
                }
            }
        },
        SourceEncoding::Utf8Bom => {},
        SourceEncoding::Utf16Le => {
            lemma_bytes_units_round_trip(utf16_units(text), false);
            if has_bom(bytes, SourceEncoding::Utf8Bom) {
                assert(bytes.take(3)[0] == bytes[0]);
                assert(bytes[0] == bom(e)[0]);
            }
        },
        SourceEncoding::Utf16Be => {
            lemma_bytes_units_round_trip(utf16_units(text), true);
            if has_bom(bytes, SourceEncoding::Utf8Bom) {
                assert(bytes.take(3)[0] == bytes[0]);
                assert(bytes[0] == bom(e)[0]);
            }
            if has_bom(bytes, SourceEncoding::Utf16Le) {
                assert(bytes.take(2)[0] == bytes[0]);
                assert(bytes[0] == bom(e)[0]);
            }
        },
    }
}

/// A file that is written back unchanged is the same file, byte for byte:
/// encoding what was decoded, in the encoding that was detected, gives the
/// bytes that were read.
pub proof fn law_encode_of_decode(bytes: Seq<u8>)
    requires
        decoded(bytes) is Ok,
    ensures
        encoded(decoded(bytes)->Ok_0, detected(bytes)) == bytes,
{
    let e = detected(bytes);
    let rest = bytes.skip(bom(e).len() as int);
    match e {
        SourceEncoding::Utf8 => {
            assert(rest =~= bytes);
            decode_utf8_encode_utf8(rest);
        },
        SourceEncoding::Utf8Bom => {
            decode_utf8_encode_utf8(rest);
        },
        SourceEncoding::Utf16Le => {
            lemma_units_of_text(bytes_units(rest, false));
            lemma_units_bytes_round_trip(rest, false);
        },
        SourceEncoding::Utf16Be => {
            lemma_units_of_text(bytes_units(rest, true));
            lemma_units_bytes_round_trip(rest, true);
        },
    }
    assert(bom(e) + rest =~= bytes) by {
        assert(bytes.take(bom(e).len() as int) == bom(e)) by {
            if e == SourceEncoding::Utf8 {
                assert(bytes.take(0) =~= bom(e));
            }
        }
        assert(bytes =~= bytes.take(bom(e).len() as int) + rest);
    }
}

} // verus!
