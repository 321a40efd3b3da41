//! Splitting a text into lines, and line geometry.
use vstd::prelude::*;
use vstd::slice::slice_subrange;
use vstd::utf8::*;

use crate::offsets;
use crate::offsets::slice_str;

verus! {

/// `memchr::memchr` returns the index of the first occurrence of a byte in a
/// slice, or `None` where the byte does not occur.
pub assume_specification[ memchr::memchr ](needle: u8, haystack: &[u8]) -> (r: Option<usize>)
    ensures
        match r {
            Some(p) => p < haystack@.len() && haystack@[p as int] == needle && (forall|k: int|
                0 <= k < p ==> haystack@[k] != needle),
            None => forall|k: int| 0 <= k < haystack@.len() ==> haystack@[k] != needle,
        },
;

/// `memchr::memrchr` returns the index of the last occurrence of a byte in a
/// slice, or `None` where the byte does not occur.
pub assume_specification[ memchr::memrchr ](needle: u8, haystack: &[u8]) -> (r: Option<usize>)
    ensures
        match r {
            Some(p) => p < haystack@.len() && haystack@[p as int] == needle && (forall|k: int|
                p < k < haystack@.len() ==> haystack@[k] != needle),
            None => forall|k: int| 0 <= k < haystack@.len() ==> haystack@[k] != needle,
        },
;

/// The index of the first `\n` of `s` at or after `i`, or the length of `s`.
pub open spec fn first_newline(s: Seq<char>, i: int) -> int
    decreases s.len() - i,
{
    if i >= s.len() {
        s.len() as int
    } else if s[i] == '\n' {
        i
    } else {
        first_newline(s, i + 1)
    }
}

/// The start of the line that holds position `i`: just past the last `\n` before it.
pub open spec fn line_start(s: Seq<char>, i: int) -> int
    decreases i,
{
    if i <= 0 {
        0
    } else if s[i - 1] == '\n' {
        i
    } else {
        line_start(s, i - 1)
    }
}

/// How many `\n` a text holds.
pub open spec fn newline_count(s: Seq<char>) -> nat
    decreases s.len(),
{
    if s.len() == 0 {
        0
    } else {
        newline_count(s.drop_last()) + if s.last() == '\n' {
            1nat
        } else {
            0nat
        }
    }
}

/// Where the content of the line `b..e` ends: before the `\r` of a `\r\n` terminator.
/// A `\r` at the end of an unterminated line belongs to its content.
pub open spec fn content_end(s: Seq<char>, b: int, e: int) -> int {
    if b < e < s.len() && s[e - 1] == '\r' {
        e - 1
    } else {
        e
    }
}

/// The lines of `s` from position `b` on, without their terminators.
pub open spec fn lines_from(s: Seq<char>, b: int) -> Seq<Seq<char>>
    decreases s.len() + 1 - b,
{
    if b < 0 || b >= s.len() {
        Seq::empty()
    } else {
        let e = first_newline(s, b);
        proof {
            lemma_first_newline(s, b);
        }
        seq![s.subrange(b, content_end(s, b, e))] + lines_from(s, e + 1)
    }
}

/// The lines of a text. Each ends at `\n` or `\r\n`, which is not part of it;
/// an unterminated last line counts.
pub open spec fn lines(s: Seq<char>) -> Seq<Seq<char>> {
    lines_from(s, 0)
}

/// Where line `i` counted from the line start `b` begins.
pub open spec fn nth_begin(s: Seq<char>, b: int, i: int) -> int
    decreases i,
{
    if i <= 0 {
        b
    } else {
        first_newline(s, nth_begin(s, b, i - 1)) + 1
    }
}

pub proof fn lemma_first_newline(s: Seq<char>, i: int)
    requires
        0 <= i <= s.len(),
    ensures
        i <= first_newline(s, i) <= s.len(),
        first_newline(s, i) < s.len() ==> s[first_newline(s, i)] == '\n',
        forall|k: int| i <= k < first_newline(s, i) ==> s[k] != '\n',
    decreases s.len() - i,
{
    if i < s.len() && s[i] != '\n' {
        lemma_first_newline(s, i + 1);
    }
}

/// The first newline is what its properties pin down.
pub proof fn lemma_first_newline_is(s: Seq<char>, i: int, e: int)
    requires
        0 <= i <= e <= s.len(),
        e < s.len() ==> s[e] == '\n',
        forall|k: int| i <= k < e ==> s[k] != '\n',
    ensures
        first_newline(s, i) == e,
    decreases e - i,
{
    if i < e {
        lemma_first_newline_is(s, i + 1, e);
    }
}

pub proof fn lemma_line_start(s: Seq<char>, i: int)
    requires
        0 <= i <= s.len(),
    ensures
        0 <= line_start(s, i) <= i,
        line_start(s, i) > 0 ==> s[line_start(s, i) - 1] == '\n',
        forall|k: int| line_start(s, i) <= k < i ==> s[k] != '\n',
    decreases i,
{
    if i > 0 && s[i - 1] != '\n' {
        lemma_line_start(s, i - 1);
    }
}

pub proof fn lemma_line_start_is(s: Seq<char>, i: int, b: int)
    requires
        0 <= b <= i <= s.len(),
        b > 0 ==> s[b - 1] == '\n',
        forall|k: int| b <= k < i ==> s[k] != '\n',
    ensures
        line_start(s, i) == b,
    decreases i - b,
{
    if b < i {
        lemma_line_start_is(s, i - 1, b);
    }
}

/// Newlines of a concatenation add up.
pub proof fn lemma_newline_count_append(a: Seq<char>, b: Seq<char>)
    ensures
        newline_count(a + b) == newline_count(a) + newline_count(b),
    decreases b.len(),
{
    if b.len() == 0 {
        assert(a + b =~= a);
    } else {
        lemma_newline_count_append(a, b.drop_last());
        assert((a + b).drop_last() =~= a + b.drop_last());
    }
}

/// A stretch without newlines counts none.
pub proof fn lemma_newline_count_none(a: Seq<char>)
    requires
        forall|k: int| 0 <= k < a.len() ==> a[k] != '\n',
    ensures
        newline_count(a) == 0,
    decreases a.len(),
{
    if a.len() > 0 {
        lemma_newline_count_none(a.drop_last());
    }
}

pub proof fn lemma_newline_count_le(a: Seq<char>)
    ensures
        newline_count(a) <= a.len(),
    decreases a.len(),
{
    if a.len() > 0 {
        lemma_newline_count_le(a.drop_last());
    }
}

/// Passing one line terminator counts one newline.
pub proof fn lemma_newline_count_line(s: Seq<char>, b: int)
    requires
        0 <= b <= s.len(),
        first_newline(s, b) < s.len(),
    ensures
        newline_count(s.take(first_newline(s, b) + 1)) == newline_count(s.take(b)) + 1,
{
    lemma_first_newline(s, b);
    let e = first_newline(s, b);
    let mid = s.subrange(b, e);
    assert(s.take(e) =~= s.take(b) + mid);
    lemma_newline_count_append(s.take(b), mid);
    lemma_newline_count_none(mid);
    assert(s.take(e + 1).drop_last() =~= s.take(e));
}

/// Line `i` from `b` on stands where `nth_begin` says.
pub proof fn lemma_lines_from_index(s: Seq<char>, b: int, i: int)
    requires
        0 <= b <= s.len(),
        0 <= i < lines_from(s, b).len(),
    ensures
        b <= nth_begin(s, b, i) < s.len(),
        lines_from(s, b)[i] == s.subrange(
            nth_begin(s, b, i),
            content_end(s, nth_begin(s, b, i), first_newline(s, nth_begin(s, b, i))),
        ),
        lines_from(s, b).skip(i) =~= lines_from(s, nth_begin(s, b, i)),
    decreases i,
{
    lemma_first_newline(s, b);
    if i == 0 {
        assert(lines_from(s, b).skip(0) =~= lines_from(s, b));
    } else {
        lemma_lines_from_index(s, b, i - 1);
        let p = nth_begin(s, b, i - 1);
        lemma_first_newline(s, p);
        let e = first_newline(s, p);
        let rest = lines_from(s, p);
        assert(lines_from(s, b).skip(i) =~= rest.skip(1));
        assert(rest.skip(1) =~= lines_from(s, e + 1));
        assert(lines_from(s, b)[i] == lines_from(s, b).skip(i)[0]);
        assert(lines_from(s, e + 1).len() > 0);
        lemma_first_newline(s, e + 1);
    }
}

/// The number of lines: one per newline and one more for an unterminated rest.
pub proof fn lemma_lines_len(s: Seq<char>, b: int)
    requires
        0 <= b <= s.len(),
    ensures
        lines_from(s, b).len() == newline_count(s.skip(b)) + (if b < s.len() && s.last() != '\n' {
            1int
        } else {
            0int
        }),
    decreases s.len() - b,
{
    if b < s.len() {
        lemma_first_newline(s, b);
        let e = first_newline(s, b);
        let mid = s.subrange(b, e);
        lemma_newline_count_none(mid);
        if e < s.len() {
            lemma_lines_len(s, e + 1);
            let nl = s.subrange(e, e + 1);
            assert(nl.drop_last() =~= Seq::<char>::empty());
            assert(newline_count(nl) == 1) by {
                reveal_with_fuel(newline_count, 2);
            }
            assert(s.skip(b) =~= mid + nl + s.skip(e + 1));
            lemma_newline_count_append(mid + nl, s.skip(e + 1));
            lemma_newline_count_append(mid, nl);
            if e + 1 == s.len() {
                assert(s.last() == '\n');
            }
        } else {
            assert(s.skip(b) =~= mid);
            assert(lines_from(s, e + 1) =~= Seq::<Seq<char>>::empty());
        }
    } else {
        assert(s.skip(b) =~= Seq::<char>::empty());
    }
}

/// The byte of `\n` at byte offset `p` is the character `\n`, and back.
proof fn lemma_newline_byte(s: Seq<char>, i: int)
    requires
        0 <= i < s.len(),
    ensures
        s[i] == '\n' <==> encode_utf8(s)[offsets::byte_pos(s, i)] == 10u8,
        offsets::byte_pos(s, i) < encode_utf8(s).len(),
{
    offsets::lemma_byte_pos_mono(s, i, i + 1);
    offsets::lemma_slice(s, i + 1, s.len() as int);
    offsets::lemma_byte_pos_ends(s);
    if s[i] == '\n' {
        offsets::lemma_ascii_at(s, i);
    } else if encode_utf8(s)[offsets::byte_pos(s, i)] == 10u8 {
        let k = offsets::lemma_ascii_byte(s, offsets::byte_pos(s, i));
        offsets::lemma_byte_pos_injective(s, i, k);
    }
}

/// The byte offset of the first newline at or after `from`, or of the end of the text.
pub(crate) fn find_newline(text: &str, from: usize, i: Ghost<int>) -> (r: usize)
    requires
        0 <= i@ <= text@.len(),
        from == offsets::byte_pos(text@, i@),
    ensures
        r == offsets::byte_pos(text@, first_newline(text@, i@)),
        from <= r <= encode_utf8(text@).len(),
{
    let bytes = text.as_bytes();
    let ghost s = text@;
    proof {
        offsets::lemma_slice(s, i@, s.len() as int);
        offsets::lemma_byte_pos_ends(s);
        lemma_first_newline(s, i@);
        offsets::lemma_slice(s, i@, first_newline(s, i@));
        offsets::lemma_slice(s, first_newline(s, i@), s.len() as int);
    }
    let tail = slice_subrange(bytes, from, bytes.len());
    match memchr::memchr(10u8, tail) {
        Some(p) => {
            proof {
                let at = from + p;
                assert(encode_utf8(s)[at] == tail@[p as int]);
                let k = offsets::lemma_ascii_byte(s, at);
                offsets::lemma_byte_pos_injective(s, i@, k);
                assert forall|q: int| i@ <= q < k implies s[q] != '\n' by {
                    lemma_newline_byte(s, q);
                    offsets::lemma_byte_pos_injective(s, q, k);
                    offsets::lemma_byte_pos_injective(s, i@, q);
                    let bp = offsets::byte_pos(s, q);
                    assert(tail@[bp - from] == encode_utf8(s)[bp]);
                }
                lemma_first_newline_is(s, i@, k);
            }
            from + p
        },
        None => {
            proof {
                assert forall|q: int| i@ <= q < s.len() implies s[q] != '\n' by {
                    lemma_newline_byte(s, q);
                    offsets::lemma_byte_pos_injective(s, i@, q);
                    let bp = offsets::byte_pos(s, q);
                    assert(tail@[bp - from] == encode_utf8(s)[bp]);
                }
                lemma_first_newline_is(s, i@, s.len() as int);
            }
            bytes.len()
        },
    }
}

/// The byte offset of the start of the line that holds position `at`.
pub(crate) fn find_line_start(text: &str, at: usize, i: Ghost<int>) -> (r: usize)
    requires
        0 <= i@ <= text@.len(),
        at == offsets::byte_pos(text@, i@),
    ensures
        r == offsets::byte_pos(text@, line_start(text@, i@)),
        r <= at <= encode_utf8(text@).len(),
{
    let bytes = text.as_bytes();
    let ghost s = text@;
    proof {
        offsets::lemma_slice(s, 0, i@);
        offsets::lemma_slice(s, i@, s.len() as int);
        offsets::lemma_byte_pos_ends(s);
    }
    let head = slice_subrange(bytes, 0, at);
    match memchr::memrchr(10u8, head) {
        Some(p) => {
            proof {
                assert(encode_utf8(s)[p as int] == head@[p as int]);
                let k = offsets::lemma_ascii_byte(s, p as int);
                offsets::lemma_ascii_at(s, k);
                offsets::lemma_byte_pos_injective(s, k, i@);
                assert forall|q: int| k + 1 <= q < i@ implies s[q] != '\n' by {
                    lemma_newline_byte(s, q);
                    offsets::lemma_byte_pos_injective(s, k, q);
                    offsets::lemma_byte_pos_injective(s, q, i@);
                    let bp = offsets::byte_pos(s, q);
                    assert(head@[bp] == encode_utf8(s)[bp]);
                }
                lemma_line_start_is(s, i@, k + 1);
            }
            p + 1
        },
        None => {
            proof {
                assert forall|q: int| 0 <= q < i@ implies s[q] != '\n' by {
                    lemma_newline_byte(s, q);
                    offsets::lemma_byte_pos_injective(s, q, i@);
                    let bp = offsets::byte_pos(s, q);
                    assert(head@[bp] == encode_utf8(s)[bp]);
                }
                lemma_line_start_is(s, i@, 0);
            }
            0
        },
    }
}

/// Where the content of the line `from..to` ends, in bytes.
pub(crate) fn find_content_end(text: &str, from: usize, to: usize, b: Ghost<int>, e: Ghost<int>) -> (r:
    usize)
    requires
        0 <= b@ <= e@ <= text@.len(),
        from == offsets::byte_pos(text@, b@),
        to == offsets::byte_pos(text@, e@),
    ensures
        r == offsets::byte_pos(text@, content_end(text@, b@, e@)),
        from <= r <= to,
{
    let bytes = text.as_bytes();
    let ghost s = text@;
    proof {
        offsets::lemma_slice(s, b@, e@);
        offsets::lemma_slice(s, e@, s.len() as int);
        offsets::lemma_byte_pos_ends(s);
        offsets::lemma_byte_pos_injective(s, b@, e@);
        offsets::lemma_byte_pos_injective(s, e@, s.len() as int);
    }
    if from < to && to < bytes.len() && bytes[to - 1] == 13u8 {
        proof {
            let k = offsets::lemma_ascii_byte(s, to - 1);
            offsets::lemma_ascii_at(s, k);
            offsets::lemma_byte_pos_injective(s, k + 1, e@);
            offsets::lemma_byte_pos_injective(s, b@, k + 1);
        }
        to - 1
    } else {
        proof {
            if b@ < e@ < s.len() && s[e@ - 1] == '\r' {
                offsets::lemma_ascii_at(s, e@ - 1);
            }
        }
        to
    }
}

/// How many newlines stand between two positions of a text.
pub(crate) fn count_newlines(text: &str, from: usize, to: usize, i: Ghost<int>, j: Ghost<int>) -> (r:
    usize)
    requires
        0 <= i@ <= j@ <= text@.len(),
        from == offsets::byte_pos(text@, i@),
        to == offsets::byte_pos(text@, j@),
    ensures
        r == newline_count(text@.subrange(i@, j@)),
        r <= to - from,
{
    let ghost s = text@;
    proof {
        offsets::lemma_byte_pos_mono(s, i@, j@);
        offsets::lemma_slice(s, j@, s.len() as int);
        assert(s.subrange(i@, i@) =~= Seq::<char>::empty());
    }
    let mut n: usize = 0;
    let mut pos: usize = from;
    let ghost mut p = i@;
    let mut open = true;
    while open
        invariant
            s == text@,
            0 <= i@ <= p <= j@ <= s.len(),
            from == offsets::byte_pos(s, i@),
            to == offsets::byte_pos(s, j@),
            pos == offsets::byte_pos(s, p),
            n == newline_count(s.subrange(i@, p)),
            n <= pos - from,
            to <= encode_utf8(s).len(),
            !open ==> n == newline_count(s.subrange(i@, j@)),
            pos <= to,
        decreases to - pos + (if open {
            1int
        } else {
            0int
        }),
    {
        let at = find_newline(text, pos, Ghost(p));
        proof {
            lemma_first_newline(s, p);
        }
        let ghost q = first_newline(s, p);
        proof {
            offsets::lemma_byte_pos_injective(s, q, j@);
        }
        if at >= to {
            open = false;
            proof {
                let mid = s.subrange(p, j@);
                lemma_newline_count_none(mid);
                assert(s.subrange(i@, j@) =~= s.subrange(i@, p) + mid);
                lemma_newline_count_append(s.subrange(i@, p), mid);
            }
        } else {
            proof {
                offsets::lemma_ascii_at(s, q);
                let mid = s.subrange(p, q);
                lemma_newline_count_none(mid);
                assert(s.subrange(i@, q) =~= s.subrange(i@, p) + mid);
                lemma_newline_count_append(s.subrange(i@, p), mid);
                assert(s.subrange(i@, q + 1).drop_last() =~= s.subrange(i@, q));
                offsets::lemma_byte_pos_mono(s, p, q + 1);
                offsets::lemma_byte_pos_mono(s, q + 1, j@);
                p = q + 1;
            }
            n += 1;
            pos = at + 1;
        }
    }
    n
}

/// The lines of a text, without their terminators.
pub fn split_lines<'a>(text: &'a str) -> (r: Vec<&'a str>)
    ensures
        crate::strings::strs_view(r@) == lines(text@),
{
    let ghost s = text@;
    let mut out: Vec<&'a str> = Vec::new();
    let total = text.as_bytes().len();
    let mut pos: usize = 0;
    let ghost mut b: int = 0;
    proof {
        offsets::lemma_byte_pos_ends(s);
        assert(crate::strings::strs_view(out@) + lines_from(s, 0) =~= lines(s));
    }
    while pos < total
        invariant
            s == text@,
            total == encode_utf8(s).len(),
            0 <= b,
            b <= s.len() ==> pos == offsets::byte_pos(s, b),
            b > s.len() ==> pos >= total,
            crate::strings::strs_view(out@) + lines_from(s, b) == lines(s),
        decreases total - pos,
    {
        proof {
            offsets::lemma_byte_pos_ends(s);
            offsets::lemma_byte_pos_injective(s, b, s.len() as int);
            lemma_first_newline(s, b);
        }
        let stop = find_newline(text, pos, Ghost(b));
        let ghost e = first_newline(s, b);
        let cut = find_content_end(text, pos, stop, Ghost(b), Ghost(e));
        let line = slice_str(text, pos, cut, Ghost(b), Ghost(content_end(s, b, e)));
        let ghost before = out@;
        out.push(line);
        proof {
            offsets::lemma_byte_pos_injective(s, e, s.len() as int);
            assert(crate::strings::strs_view(out@) =~= crate::strings::strs_view(before).push(
                line@,
            ));
            assert(lines_from(s, b) =~= seq![line@] + lines_from(s, e + 1));
            assert(crate::strings::strs_view(out@) + lines_from(s, e + 1)
                =~= crate::strings::strs_view(before) + lines_from(s, b));
        }
        if stop < total {
            proof {
                offsets::lemma_ascii_at(s, e);
                offsets::lemma_byte_pos_mono(s, e + 1, s.len() as int);
            }
            pos = stop + 1;
        } else {
            pos = total;
        }
        proof {
            b = e + 1;
        }
    }
    proof {
        if b <= s.len() {
            offsets::lemma_byte_pos_ends(s);
            offsets::lemma_byte_pos_injective(s, b, s.len() as int);
        }
        assert(lines_from(s, b) =~= Seq::<Seq<char>>::empty());
        assert(crate::strings::strs_view(out@) =~= lines(s));
    }
    out
}

} // verus!
