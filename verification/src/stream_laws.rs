//! How a stream compares with the pass over a whole text.
use vstd::prelude::*;

use crate::edits;
use crate::edits::LineEdit;
use crate::engine;
use crate::error;
use crate::laws;
use crate::lines;
use crate::matcher::MatcherView;
use crate::needles;
use crate::operation::{Action, OpView, RangeView};
use crate::range;
use crate::splice;
use crate::splice_laws;
use crate::stream;
use crate::stream::Terminator;

verus! {

/// The lines of `s` from position `b` on, each with its terminator.
pub open spec fn raw_from(s: Seq<char>, b: int) -> Seq<Seq<char>>
    decreases s.len() + 1 - b,
{
    if b < 0 || b >= s.len() {
        Seq::empty()
    } else {
        let e = lines::first_newline(s, b);
        proof {
            lines::lemma_first_newline(s, b);
        }
        seq![s.subrange(b, raw_end(s, e))] + raw_from(s, e + 1)
    }
}

/// Where a line whose terminator is at `e` ends.
pub open spec fn raw_end(s: Seq<char>, e: int) -> int {
    if e < s.len() {
        e + 1
    } else {
        s.len() as int
    }
}

/// A text as a stream: its lines, each with its terminator.
pub open spec fn raw_lines(s: Seq<char>) -> Seq<Seq<char>> {
    raw_from(s, 0)
}

/// One line of a stream: its content is the line, and its terminator is what
/// stands in the text behind the content.
proof fn lemma_raw_line(s: Seq<char>, b: int)
    requires
        0 <= b < s.len(),
    ensures
        ({
            let e = lines::first_newline(s, b);
            let raw = s.subrange(b, raw_end(s, e));
            &&& stream::line_content(raw) == s.subrange(b, lines::content_end(s, b, e))
            &&& stream::terminator_of(raw) == if e == s.len() {
                Terminator::Missing
            } else if b < e && s[e - 1] == '\r' {
                Terminator::CrLf
            } else {
                Terminator::Lf
            }
        }),
{
    lines::lemma_first_newline(s, b);
    let e = lines::first_newline(s, b);
    let raw = s.subrange(b, raw_end(s, e));
    if e < s.len() {
        assert(raw.last() == s[e]);
        if b < e {
            assert(raw[raw.len() - 2] == s[e - 1]);
        }
    } else {
        assert(raw.last() == s[e - 1]);
    }
    assert(stream::line_content(raw) =~= s.subrange(b, lines::content_end(s, b, e)));
}

/// The lines of a stream are the lines of the text.
proof fn lemma_raw_contents(s: Seq<char>, b: int)
    requires
        0 <= b <= s.len() + 1,
    ensures
        stream::contents(raw_from(s, b)) == lines::lines_from(s, b),
    decreases s.len() + 1 - b,
{
    if b < s.len() {
        lines::lemma_first_newline(s, b);
        let e = lines::first_newline(s, b);
        lemma_raw_contents(s, e + 1);
        lemma_raw_line(s, b);
        let raw = s.subrange(b, raw_end(s, e));
        let rest = raw_from(s, e + 1);
        assert(raw_from(s, b) == seq![raw] + rest);
        assert(stream::contents(seq![raw] + rest) =~= seq![stream::line_content(raw)]
            + stream::contents(rest)) by {
            assert forall|i: int| 0 < i < (seq![raw] + rest).len() implies stream::contents(
                seq![raw] + rest,
            )[i] == #[trigger] stream::contents(rest)[i - 1] by {
                assert((seq![raw] + rest)[i] == rest[i - 1]);
            }
        }
    } else {
        assert(stream::contents(raw_from(s, b)) =~= lines::lines_from(s, b));
    }
}

/// Line `i` of a stream stands where line `i` of the text does.
proof fn lemma_raw_index(s: Seq<char>, b: int, i: int)
    requires
        0 <= b <= s.len(),
        0 <= i < raw_from(s, b).len(),
    ensures
        ({
            let p = lines::nth_begin(s, b, i);
            &&& b <= p < s.len()
            &&& raw_from(s, b)[i] == s.subrange(p, raw_end(s, lines::first_newline(s, p)))
            &&& raw_from(s, b).skip(i) == raw_from(s, p)
        }),
    decreases i,
{
    lines::lemma_first_newline(s, b);
    if i == 0 {
        assert(raw_from(s, b).skip(0) =~= raw_from(s, b));
    } else {
        lemma_raw_index(s, b, i - 1);
        let p = lines::nth_begin(s, b, i - 1);
        lines::lemma_first_newline(s, p);
        let e = lines::first_newline(s, p);
        let rest = raw_from(s, p);
        assert(raw_from(s, b).skip(i) =~= rest.skip(1));
        assert(rest.skip(1) =~= raw_from(s, e + 1));
        assert(raw_from(s, b)[i] == raw_from(s, b).skip(i)[0]);
        assert(raw_from(s, e + 1).len() > 0);
    }
}

/// A newline that counts as bare makes the count positive.
proof fn lemma_bare_counted(s: Seq<char>, k: int, n: int)
    requires
        0 <= k < n <= s.len(),
        s[k] == '\n',
        k == 0 || s[k - 1] != '\r',
    ensures
        engine::bare_lf_count(s, n) > 0,
    decreases n,
{
    if k < n - 1 {
        lemma_bare_counted(s, k, n - 1);
    }
}

/// In a text with uniform line endings every line that is terminated ends in
/// the separator of the text; only the last line may not be terminated.
proof fn lemma_raw_terminator(s: Seq<char>, i: int)
    requires
        laws::uniform_endings(s),
        0 <= i < raw_lines(s).len(),
    ensures
        edits::ends_with_newline(s) || i < raw_lines(s).len() - 1 ==> {
            &&& !(stream::terminator_of(raw_lines(s)[i]) is Missing)
            &&& stream::terminator_text(stream::terminator_of(raw_lines(s)[i])) == engine::separator(
                s,
            )
        },
        !edits::ends_with_newline(s) && i == raw_lines(s).len() - 1 ==> stream::terminator_of(
            raw_lines(s)[i],
        ) is Missing,
{
    reveal_strlit("\n");
    reveal_strlit("\r\n");
    lemma_raw_index(s, 0, i);
    let p = lines::nth_begin(s, 0, i);
    lines::lemma_first_newline(s, p);
    let e = lines::first_newline(s, p);
    lemma_raw_line(s, p);
    let n = s.len() as int;
    if e == s.len() {
        assert(raw_from(s, e + 1) =~= Seq::<Seq<char>>::empty());
        assert(raw_lines(s).skip(i).len() == 1);
        assert(s[n - 1] != '\n');
    } else {
        if p < e && s[e - 1] == '\r' {
            laws::lemma_crlf_counted(s, e, n);
            assert(seq!['\r', '\n'] =~= "\r\n"@);
        } else {
            if p == e && p > 0 {
                lemma_begin_behind_newline(s, i);
            }
            lemma_bare_counted(s, e, n);
            assert(seq!['\n'] =~= "\n"@);
        }
        if i == raw_lines(s).len() - 1 {
            assert(raw_lines(s).skip(i).len() == 1);
            assert(raw_from(s, e + 1).len() == 0);
            assert(e + 1 == n);
        }
    }
}

/// A line that is not the first stands behind a newline.
proof fn lemma_begin_behind_newline(s: Seq<char>, i: int)
    requires
        0 <= i < raw_lines(s).len(),
        lines::nth_begin(s, 0, i) > 0,
    ensures
        s[lines::nth_begin(s, 0, i) - 1] == '\n',
{
    lemma_raw_index(s, 0, i);
    if i > 0 {
        lemma_raw_index(s, 0, i - 1);
        lines::lemma_first_newline(s, lines::nth_begin(s, 0, i - 1));
    }
}

/// Terminated lines one by one.
proof fn lemma_rejoin_push(ls: Seq<Seq<char>>, sep: Seq<char>)
    requires
        ls.len() > 0,
    ensures
        edits::rejoin(ls, sep, true) == edits::rejoin(ls.drop_last(), sep, true) + ls.last() + sep,
        edits::join(ls, sep) == edits::rejoin(ls.drop_last(), sep, true) + ls.last(),
{
    let head = ls.drop_last();
    if ls.len() == 1 {
        assert(edits::rejoin(head, sep, true) =~= Seq::<char>::empty());
        assert(edits::join(ls, sep) =~= edits::rejoin(head, sep, true) + ls.last());
    }
}

/// Terminated lines in two parts.
proof fn lemma_rejoin_append(a: Seq<Seq<char>>, b: Seq<Seq<char>>, sep: Seq<char>)
    ensures
        edits::rejoin(a + b, sep, true) == edits::rejoin(a, sep, true) + edits::rejoin(
            b,
            sep,
            true,
        ),
        b.len() > 0 ==> edits::join(a + b, sep) == edits::rejoin(a, sep, true) + edits::join(b, sep),
    decreases b.len(),
{
    if b.len() == 0 {
        assert(a + b =~= a);
        assert(edits::rejoin(b, sep, true) =~= Seq::<char>::empty());
    } else {
        lemma_rejoin_append(a, b.drop_last(), sep);
        assert((a + b).drop_last() =~= a + b.drop_last());
        lemma_rejoin_push(a + b, sep);
        lemma_rejoin_push(b, sep);
        let head = edits::rejoin(a, sep, true);
        let mid = edits::rejoin(b.drop_last(), sep, true);
        assert((head + mid) + b.last() =~= head + (mid + b.last()));
        assert((head + mid) + b.last() + sep =~= head + (mid + b.last() + sep));
    }
}

/// Lines that stand in place of a terminated line are terminated lines.
proof fn lemma_terminated(ls: Seq<Seq<char>>, t: Terminator, n: int)
    requires
        0 <= n <= ls.len(),
        !(t is Missing),
    ensures
        stream::terminated_prefix(ls, t, n) == edits::rejoin(
            ls.take(n),
            stream::terminator_text(t),
            true,
        ),
    decreases n,
{
    let sep = stream::terminator_text(t);
    if n > 0 {
        lemma_terminated(ls, t, n - 1);
        assert(ls.take(n).drop_last() =~= ls.take(n - 1));
        lemma_rejoin_push(ls.take(n), sep);
    } else {
        assert(edits::rejoin(ls.take(n), sep, true) =~= Seq::<char>::empty());
    }
}

/// The first lines of a stream, as far as they are terminated, come out as the
/// lines that the pass over the text leaves.
proof fn lemma_stream_of_terminated(
    text: Seq<char>,
    action: Action,
    m: MatcherView,
    range: Option<RangeView>,
    n: int,
)
    requires
        laws::uniform_endings(text),
        0 <= n <= raw_lines(text).len(),
        edits::ends_with_newline(text) || n < raw_lines(text).len() || n == 0,
    ensures
        stream::stream_text(action, m, range, raw_lines(text), n) == edits::rejoin(
            edits::edit_lines(
                lines::lines(text),
                engine::pass_edits(action, m, range, lines::lines(text)),
                n,
            ),
            engine::separator(text),
            true,
        ),
    decreases n,
{
    let raws = raw_lines(text);
    let ls = lines::lines(text);
    let es = engine::pass_edits(action, m, range, ls);
    let sep = engine::separator(text);
    lemma_raw_contents(text, 0);
    assert(stream::contents(raws) == ls);
    if n > 0 {
        lemma_stream_of_terminated(text, action, m, range, n - 1);
        lemma_raw_terminator(text, n - 1);
        let out = edits::emitted(es[n - 1], ls[n - 1]);
        lemma_terminated(out, stream::terminator_of(raws[n - 1]), out.len() as int);
        assert(out.take(out.len() as int) =~= out);
        lemma_rejoin_append(edits::edit_lines(ls, es, n - 1), out, sep);
    } else {
        assert(edits::rejoin(edits::edit_lines(ls, es, 0), sep, true) =~= Seq::<char>::empty());
    }
}

/// Whether a stream ends as the text does: the last line is terminated, or it
/// is not deleted and, where a line is inserted at it, lines are separated by
/// a line feed.
pub open spec fn ends_alike(text: Seq<char>, es: Seq<LineEdit>) -> bool {
    ||| text.len() == 0
    ||| edits::ends_with_newline(text)
    ||| es.last() is Keep
    ||| es.last() is Put
    ||| !(es.last() is Drop) && engine::separator(text) == "\n"@
}

/// A text with uniform line endings comes out of a stream as it comes out of
/// the pass over the whole text, and as many lines are changed.
pub proof fn law_stream_is_buffered(
    text: Seq<char>,
    action: Action,
    m: MatcherView,
    range: Option<RangeView>,
    context_lines: int,
)
    requires
        laws::uniform_endings(text),
        ends_alike(text, engine::pass_edits(action, m, range, lines::lines(text))),
    ensures
        ({
            let raws = raw_lines(text);
            let buffered = engine::line_output(text, action, m, range, context_lines);
            let n = raws.len() as int;
            &&& stream::stream_text(action, m, range, raws, n) == match buffered.text {
                Some(t) => t,
                None => text,
            }
            &&& stream::stream_changes(action, m, range, raws, n).len() == buffered.changes.len()
        }),
{
    let raws = raw_lines(text);
    let ls = lines::lines(text);
    let es = engine::pass_edits(action, m, range, ls);
    let sep = engine::separator(text);
    let n = raws.len() as int;
    lemma_raw_contents(text, 0);
    assert(stream::contents(raws) == ls);
    assert(raws.len() == ls.len());
    lemma_same_count(ls, es, sep, context_lines, n);
    let left = edits::edit_lines(ls, es, n);
    assert(stream::stream_text(action, m, range, raws, n) == edits::rejoin(
        left,
        sep,
        edits::ends_with_newline(text),
    )) by {
        if edits::ends_with_newline(text) || n == 0 {
            lemma_stream_of_terminated(text, action, m, range, n);
            if n == 0 {
                assert(edits::rejoin(left, sep, true) =~= edits::rejoin(left, sep, false));
            }
        } else {
            lemma_stream_of_terminated(text, action, m, range, n - 1);
            lemma_raw_terminator(text, n - 1);
            let out = edits::emitted(es[n - 1], ls[n - 1]);
            assert(es.last() == es[n - 1]);
            lemma_rejoin_append(edits::edit_lines(ls, es, n - 1), out, sep);
            lemma_unterminated(es[n - 1], ls[n - 1], sep);
            assert(edits::rejoin(left, sep, false) =~= edits::join(left, sep));
        }
    }
    if edits::edit_changes(ls, es, sep, context_lines, n).len() == 0 {
        lemma_none_changed(ls, es, sep, context_lines, n);
        laws::lemma_kept_lines(ls, es, n);
        assert(ls.take(n) =~= ls);
        laws::law_rejoin_restores(text);
    }
}

/// The lines in place of a line without a terminator, joined.
proof fn lemma_unterminated(edit: LineEdit, line: Seq<char>, sep: Seq<char>)
    requires
        !(edit is Drop),
        edit is Keep || edit is Put || sep == "\n"@,
    ensures
        edits::emitted(edit, line).len() > 0,
        stream::terminated(edits::emitted(edit, line), Terminator::Missing) == edits::join(
            edits::emitted(edit, line),
            sep,
        ),
{
    reveal_strlit("\n");
    let out = edits::emitted(edit, line);
    reveal_with_fuel(stream::terminated_prefix, 3);
    reveal_with_fuel(edits::join, 3);
    if out.len() == 2 {
        assert(out.drop_last() =~= seq![out[0]]);
        assert("\n"@ =~= seq!['\n']);
    }
    assert(stream::terminated(out, Terminator::Missing) =~= edits::join(out, sep));
}

/// How many lines are changed does not hang on how changes are told.
proof fn lemma_same_count(
    ls: Seq<Seq<char>>,
    es: Seq<LineEdit>,
    sep: Seq<char>,
    context_lines: int,
    n: int,
)
    ensures
        edits::edit_changes(ls, es, sep, context_lines, n).len() == edits::edit_changes(
            ls,
            es,
            seq!['\n'],
            0,
            n,
        ).len(),
    decreases n,
{
    if n > 0 {
        lemma_same_count(ls, es, sep, context_lines, n - 1);
    }
}

/// Without a change every line is kept.
proof fn lemma_none_changed(
    ls: Seq<Seq<char>>,
    es: Seq<LineEdit>,
    sep: Seq<char>,
    context_lines: int,
    n: int,
)
    requires
        edits::edit_changes(ls, es, sep, context_lines, n).len() == 0,
    ensures
        forall|i: int| 0 <= i < n ==> es[i] is Keep,
    decreases n,
{
    if n > 0 {
        lemma_none_changed(ls, es, sep, context_lines, n - 1);
    }
}

// ---------------------------------------------------------------------------
// Lines one by one
// ---------------------------------------------------------------------------

/// Lines one after another, each followed by a line feed.
pub open spec fn each_ended(ls: Seq<Seq<char>>, n: int) -> Seq<char>
    decreases n,
{
    if n <= 0 {
        Seq::empty()
    } else {
        each_ended(ls, n - 1) + ls[n - 1] + seq!['\n']
    }
}

/// How many of the first `n` lines a processor changes.
pub open spec fn changed_calls(
    action: Action,
    m: MatcherView,
    range: Option<RangeView>,
    ls: Seq<Seq<char>>,
    n: int,
) -> nat
    decreases n,
{
    if n <= 0 {
        0
    } else {
        changed_calls(action, m, range, ls, n - 1) + if engine::step_edit(
            action,
            m,
            range,
            laws::streamed_state(action, m, range, ls, n - 1),
            n,
            ls[n - 1],
        ) is Keep {
            0nat
        } else {
            1nat
        }
    }
}

/// Lines each followed by a line feed are lines joined and terminated.
proof fn lemma_each_ended(ls: Seq<Seq<char>>)
    ensures
        each_ended(ls, ls.len() as int) == edits::rejoin(ls, "\n"@, true),
    decreases ls.len(),
{
    reveal_strlit("\n");
    assert("\n"@ =~= seq!['\n']);
    if ls.len() > 0 {
        let head = ls.drop_last();
        lemma_each_ended(head);
        lemma_each_ended_prefix(ls, head.len() as int);
        if ls.len() == 1 {
            assert(head =~= Seq::<Seq<char>>::empty());
        }
        assert(each_ended(ls, ls.len() as int) =~= edits::rejoin(ls, "\n"@, true));
    } else {
        assert(edits::rejoin(ls, "\n"@, true) =~= Seq::<char>::empty());
    }
}

proof fn lemma_each_ended_prefix(ls: Seq<Seq<char>>, n: int)
    requires
        0 <= n < ls.len(),
    ensures
        each_ended(ls, n) == each_ended(ls.drop_last(), n),
    decreases n,
{
    if n > 0 {
        lemma_each_ended_prefix(ls, n - 1);
        assert(ls.drop_last()[n - 1] == ls[n - 1]);
    }
}

proof fn lemma_changed_calls(
    action: Action,
    m: MatcherView,
    range: Option<RangeView>,
    ls: Seq<Seq<char>>,
    sep: Seq<char>,
    context_lines: int,
    n: int,
)
    requires
        0 <= n <= ls.len(),
    ensures
        changed_calls(action, m, range, ls, n) == edits::edit_changes(
            ls,
            engine::pass_edits(action, m, range, ls),
            sep,
            context_lines,
            n,
        ).len(),
    decreases n,
{
    if n > 0 {
        lemma_changed_calls(action, m, range, ls, sep, context_lines, n - 1);
        laws::law_stream_is_pass(action, m, range, ls, n - 1);
        let es = engine::pass_edits(action, m, range, ls);
        assert(es[n - 1] == engine::edit_at(action, m, range, ls, n - 1));
    }
}

/// Handing the lines of a text to a processor one by one, and ending each line
/// that comes back with a line feed, gives the text that applying the operation
/// to the whole text gives, and as many calls report a change as there are
/// changes: the state of a range and the replacements left carry over from call
/// to call.
pub proof fn law_line_by_line_is_apply(
    text: Seq<char>,
    op: OpView,
    m: MatcherView,
    range: Option<RangeView>,
    context_lines: int,
)
    requires
        !op.multiline(),
        op.find.len() > 0,
        !op.regex ==> needles::looks_for(m, needles::needle_of(op)),
        range::range_error(range) is None,
        !text.contains('\r'),
        edits::ends_with_newline(text),
    ensures
        ({
            let ls = lines::lines(text);
            let n = ls.len() as int;
            let returned = laws::streamed_lines(op.action, m, range, ls, n);
            engine::apply_result(text, op, m, range, context_lines) matches Ok(out) && {
                &&& each_ended(returned, returned.len() as int) == match out.text {
                    Some(t) => t,
                    None => text,
                }
                &&& changed_calls(op.action, m, range, ls, n) == out.changes.len()
            }
        }),
{
    let ls = lines::lines(text);
    let n = ls.len() as int;
    let es = engine::pass_edits(op.action, m, range, ls);
    let sep = engine::separator(text);
    if splice::is_spliced(text, op, m, range) {
        splice_laws::law_splice_is_line_pass(text, op, m, context_lines);
    }
    let out = engine::line_output(text, op.action, m, range, context_lines);
    assert(engine::apply_result(text, op, m, range, context_lines) == Ok::<
        edits::OutputView,
        error::ErrorView,
    >(out));
    assert forall|k: int| 1 <= k < text.len() && text[k] == '\n' implies #[trigger] text[k - 1]
        != '\r' by {
        assert(text.contains(text[k - 1]));
    }
    laws::lemma_no_crlf(text, text.len() as int);
    laws::law_stream_is_pass(op.action, m, range, ls, n);
    let returned = laws::streamed_lines(op.action, m, range, ls, n);
    lemma_each_ended(returned);
    lemma_changed_calls(op.action, m, range, ls, sep, context_lines, n);
    assert(sep == "\n"@);
    if out.text is None {
        lemma_none_changed(ls, es, sep, context_lines, n);
        laws::lemma_kept_lines(ls, es, n);
        assert(ls.take(n) =~= ls);
        laws::law_rejoin_restores(text);
    }
}

} // verus!
