//! Streams: lines with their own terminators, edited one at a time.
use vstd::prelude::*;

use crate::diff;
use crate::diff::{Change, ChangeView};
use crate::edits;
use crate::edits::{join_lines, LineEdit};
use crate::engine;
use crate::engine::LineProcessor;
use crate::error::RipsedError;
use crate::matcher::{Matcher, MatcherView};
use crate::operation;
use crate::operation::{Action, Op, OpView, RangeSpec, RangeView};
use crate::strings;
use crate::strings::{chars_of, owned, string_of};

verus! {

/// How many changes of a stream are kept for display; all are counted.
pub const MAX_COLLECTED_CHANGES: usize = 50;

/// What a line of a stream ends in.
#[derive(Debug, Clone, Copy, PartialEq, Eq, Structural)]
pub enum Terminator {
    CrLf,
    Lf,
    /// The last line of a stream may have none.
    Missing,
}

/// The terminator that a line as it was read carries.
pub open spec fn terminator_of(raw: Seq<char>) -> Terminator {
    if raw.len() > 0 && raw.last() == '\n' {
        if raw.len() > 1 && raw[raw.len() - 2] == '\r' {
            Terminator::CrLf
        } else {
            Terminator::Lf
        }
    } else {
        Terminator::Missing
    }
}

/// The characters of a terminator.
pub open spec fn terminator_text(t: Terminator) -> Seq<char> {
    match t {
        Terminator::CrLf => seq!['\r', '\n'],
        Terminator::Lf => seq!['\n'],
        Terminator::Missing => seq![],
    }
}

/// A line without its terminator.
pub open spec fn line_content(raw: Seq<char>) -> Seq<char> {
    raw.take(raw.len() - terminator_text(terminator_of(raw)).len())
}

/// What stands between two lines that are emitted in place of one: the
/// terminator of that line, a line feed where it has none.
pub open spec fn inner_text(t: Terminator) -> Seq<char> {
    match t {
        Terminator::Missing => seq!['\n'],
        _ => terminator_text(t),
    }
}

/// Lines that stand in place of one line, the last of them with its
/// terminator; the first `n` of them.
pub open spec fn terminated_prefix(ls: Seq<Seq<char>>, t: Terminator, n: int) -> Seq<char>
    decreases n,
{
    if n <= 0 {
        Seq::empty()
    } else {
        terminated_prefix(ls, t, n - 1) + ls[n - 1] + if n == ls.len() {
            terminator_text(t)
        } else {
            inner_text(t)
        }
    }
}

/// Lines that stand in place of one line, with its terminator.
pub open spec fn terminated(ls: Seq<Seq<char>>, t: Terminator) -> Seq<char> {
    terminated_prefix(ls, t, ls.len() as int)
}

/// A line and its terminator make up the line as it was read.
pub proof fn law_line_is_content_and_terminator(raw: Seq<char>)
    ensures
        line_content(raw) + terminator_text(terminator_of(raw)) == raw,
        terminated(seq![line_content(raw)], terminator_of(raw)) == raw,
{
    let t = terminator_of(raw);
    let c = line_content(raw);
    assert(c + terminator_text(t) =~= raw);
    let ls = seq![c];
    reveal_with_fuel(terminated_prefix, 2);
    assert(terminated(ls, t) =~= c + terminator_text(t));
}

/// The lines of a stream without their terminators.
pub open spec fn contents(raws: Seq<Seq<char>>) -> Seq<Seq<char>> {
    Seq::new(raws.len(), |i: int| line_content(raws[i]))
}

/// What becomes of each line of a stream.
pub open spec fn stream_edits(
    action: Action,
    m: MatcherView,
    range: Option<RangeView>,
    raws: Seq<Seq<char>>,
) -> Seq<LineEdit> {
    engine::pass_edits(action, m, range, contents(raws))
}

/// What the first `n` lines of a stream are turned into.
pub open spec fn stream_text(
    action: Action,
    m: MatcherView,
    range: Option<RangeView>,
    raws: Seq<Seq<char>>,
    n: int,
) -> Seq<char>
    decreases n,
{
    if n <= 0 {
        Seq::empty()
    } else {
        stream_text(action, m, range, raws, n - 1) + terminated(
            edits::emitted(stream_edits(action, m, range, raws)[n - 1], contents(raws)[n - 1]),
            terminator_of(raws[n - 1]),
        )
    }
}

/// The changes in the first `n` lines of a stream.
pub open spec fn stream_changes(
    action: Action,
    m: MatcherView,
    range: Option<RangeView>,
    raws: Seq<Seq<char>>,
    n: int,
) -> Seq<ChangeView> {
    edits::edit_changes(contents(raws), stream_edits(action, m, range, raws), seq!['\n'], 0, n)
}

/// The changes of a stream that are kept for display.
pub open spec fn collected(changes: Seq<ChangeView>) -> Seq<ChangeView> {
    if changes.len() <= MAX_COLLECTED_CHANGES {
        changes
    } else {
        changes.take(MAX_COLLECTED_CHANGES as int)
    }
}

/// What becomes of a line does not hang on the lines behind it.
proof fn lemma_prefix(
    action: Action,
    m: MatcherView,
    range: Option<RangeView>,
    raws: Seq<Seq<char>>,
    raw: Seq<char>,
    n: int,
)
    requires
        0 <= n <= raws.len(),
    ensures
        engine::state_at(action, m, range, contents(raws.push(raw)), n) == engine::state_at(
            action,
            m,
            range,
            contents(raws),
            n,
        ),
        stream_text(action, m, range, raws.push(raw), n) == stream_text(action, m, range, raws, n),
        stream_changes(action, m, range, raws.push(raw), n) == stream_changes(
            action,
            m,
            range,
            raws,
            n,
        ),
    decreases n,
{
    if n > 0 {
        lemma_prefix(action, m, range, raws, raw, n - 1);
        let longer = raws.push(raw);
        assert(contents(longer)[n - 1] == contents(raws)[n - 1]);
        assert(stream_edits(action, m, range, longer)[n - 1] == stream_edits(
            action,
            m,
            range,
            raws,
        )[n - 1]);
    }
}

/// Splits the terminator off a line as it was read.
pub fn split_terminator(raw: &str) -> (r: (String, Terminator))
    ensures
        r.0@ == line_content(raw@),
        r.1 == terminator_of(raw@),
{
    let chars = chars_of(raw);
    let total = chars.len();
    if total > 0 && chars[total - 1] == '\n' {
        if total > 1 && chars[total - 2] == '\r' {
            let content = string_of(&chars, 0, total - 2);
            proof {
                assert(content@ =~= line_content(raw@));
            }
            (content, Terminator::CrLf)
        } else {
            let content = string_of(&chars, 0, total - 1);
            proof {
                assert(content@ =~= line_content(raw@));
            }
            (content, Terminator::Lf)
        }
    } else {
        let content = owned(raw);
        proof {
            assert(content@ =~= line_content(raw@));
        }
        (content, Terminator::Missing)
    }
}

/// Writes lines that stand in place of one, with its terminator.
fn write_lines(ls: &Vec<String>, t: Terminator) -> (r: String)
    ensures
        r@ == terminated(strings::strings_view(ls@), t),
{
    let terminator = match t {
        Terminator::CrLf => "\r\n",
        Terminator::Lf => "\n",
        Terminator::Missing => "",
    };
    let inner = match t {
        Terminator::CrLf => "\r\n",
        _ => "\n",
    };
    proof {
        reveal_strlit("\r\n");
        reveal_strlit("\n");
        reveal_strlit("");
        assert(terminator@ =~= terminator_text(t));
        assert(inner@ =~= inner_text(t));
    }
    let total = ls.len();
    let mut out = String::new();
    let mut i: usize = 0;
    while i < total
        invariant
            total == ls@.len(),
            i <= total,
            terminator@ == terminator_text(t),
            inner@ == inner_text(t),
            out@ == terminated_prefix(strings::strings_view(ls@), t, i as int),
        decreases total - i,
    {
        out.append(ls[i].as_str());
        if i + 1 == total {
            out.append(terminator);
        } else {
            out.append(inner);
        }
        i += 1;
    }
    out
}

/// A stream on its way through an operation.
pub struct StreamPass<'a> {
    processor: LineProcessor<'a>,
    total_changes: usize,
    changes: Vec<Change>,
    line_num: usize,
    fed: Ghost<Seq<Seq<char>>>,
}

impl<'a> StreamPass<'a> {
    /// The operation.
    pub closed spec fn op(self) -> OpView {
        self.processor.op()
    }

    /// What is looked for.
    pub closed spec fn matcher(self) -> MatcherView {
        self.processor.matcher()
    }

    /// The lines that may be touched.
    pub closed spec fn range(self) -> Option<RangeView> {
        self.processor.range()
    }

    /// The lines that have been fed so far, with their terminators.
    pub closed spec fn fed(self) -> Seq<Seq<char>> {
        self.fed@
    }

    /// The changes in what has been fed so far.
    pub open spec fn all_changes(self) -> Seq<ChangeView> {
        stream_changes(
            self.op().action,
            self.matcher(),
            self.range(),
            self.fed(),
            self.fed().len() as int,
        )
    }

    /// What has been fed so far is turned into this.
    pub open spec fn written(self) -> Seq<char> {
        stream_text(
            self.op().action,
            self.matcher(),
            self.range(),
            self.fed(),
            self.fed().len() as int,
        )
    }

    #[verifier::type_invariant]
    spec fn valid(self) -> bool {
        &&& self.line_num == self.fed@.len()
        &&& self.processor.line_num() == self.fed@.len()
        &&& self.processor.state() == engine::state_at(
            self.processor.op().action,
            self.processor.matcher(),
            self.processor.range(),
            contents(self.fed@),
            self.fed@.len() as int,
        )
        &&& self.total_changes == self.all_changes().len()
        &&& self.total_changes <= self.line_num
        &&& diff::changes_view(self.changes@) == collected(self.all_changes())
    }

    /// A stream before its first line. Whole-buffer operations cannot be
    /// streamed.
    pub fn new(op: &'a Op, matcher: &'a Matcher, range: Option<RangeSpec>) -> (r: Result<
        StreamPass<'a>,
        RipsedError,
    >)
        ensures
            match r {
                Ok(p) => {
                    &&& engine::stream_error(op@, operation::range_view(range)) is None
                    &&& p.op() == op@
                    &&& p.matcher() == matcher@
                    &&& p.range() == operation::range_view(range)
                    &&& p.fed() == Seq::<Seq<char>>::empty()
                },
                Err(e) => engine::stream_error(op@, operation::range_view(range)) == Some(e@),
            },
    {
        match LineProcessor::new(op, matcher, range) {
            Ok(processor) => {
                let changes: Vec<Change> = Vec::new();
                proof {
                    assert(diff::changes_view(changes@) =~= Seq::<ChangeView>::empty());
                }
                Ok(
                    StreamPass {
                        processor,
                        total_changes: 0,
                        changes,
                        line_num: 0,
                        fed: Ghost(Seq::empty()),
                    },
                )
            },
            Err(e) => Err(e),
        }
    }

    /// How many lines have been fed.
    pub fn line_count(&self) -> (n: usize)
        ensures
            n == self.fed().len(),
    {
        proof {
            use_type_invariant(self);
        }
        self.line_num
    }

    /// How many lines have been changed.
    pub fn total_changes(&self) -> (n: usize)
        ensures
            n == self.all_changes().len(),
    {
        proof {
            use_type_invariant(self);
        }
        self.total_changes
    }

    /// The first changes, at most [`MAX_COLLECTED_CHANGES`] of them.
    pub fn into_changes(self) -> (r: Vec<Change>)
        ensures
            diff::changes_view(r@) == collected(self.all_changes()),
    {
        proof {
            use_type_invariant(&self);
        }
        self.changes
    }

    /// Takes the next line, with its terminator, and gives back what stands
    /// in its place. A line that is kept comes back as it was; a line that is
    /// inserted takes the terminator of the line it is inserted at.
    pub fn feed(self, raw: &str) -> (r: (StreamPass<'a>, String))
        requires
            self.fed().len() < usize::MAX,
        ensures
            r.0.op() == self.op(),
            r.0.matcher() == self.matcher(),
            r.0.range() == self.range(),
            r.0.fed() == self.fed().push(raw@),
            r.1@ == terminated(
                edits::emitted(
                    stream_edits(self.op().action, self.matcher(), self.range(), r.0.fed())[
                        self.fed().len() as int
                    ],
                    line_content(raw@),
                ),
                terminator_of(raw@),
            ),
            r.0.written() == self.written() + r.1@,
    {
        proof {
            use_type_invariant(&self);
        }
        let StreamPass { processor, total_changes, changes, line_num, fed } = self;
        let mut processor = processor;
        let mut changes = changes;
        let mut total_changes = total_changes;
        let ghost action = processor.op().action;
        let ghost m = processor.matcher();
        let ghost range = processor.range();
        let ghost raws = fed@.push(raw@);
        let ghost n = fed@.len() as int;
        let ghost es = stream_edits(action, m, range, raws);
        proof {
            lemma_prefix(action, m, range, fed@, raw@, n);
            assert(contents(raws)[n] == line_content(raw@));
        }
        let (content, terminator) = split_terminator(raw);
        let result = processor.process_line(content.as_str());
        proof {
            assert(strings::strings_view(result.lines@) == edits::emitted(es[n], content@));
        }
        if result.changed {
            total_changes = total_changes + 1;
            if changes.len() < MAX_COLLECTED_CHANGES {
                let after = if result.lines.len() == 0 {
                    None
                } else {
                    let joined = join_lines(&result.lines, "\n");
                    proof {
                        lemma_joined(es[n], content@);
                    }
                    Some(joined)
                };
                let ghost before = changes@;
                changes.push(Change { line: line_num + 1, before: content, after, context: None });
                proof {
                    let c = changes@.last()@;
                    assert(diff::changes_view(changes@) =~= diff::changes_view(before).push(c));
                    assert(strings::strings_view(result.lines@).len() == result.lines@.len());
                    assert(c.after == edits::edit_after(es[n], content@, seq!['\n']));
                }
            }
        }
        let written = write_lines(&result.lines, terminator);
        proof {
            let before = stream_changes(action, m, range, fed@, n);
            let all = stream_changes(action, m, range, raws, n + 1);
            assert(all == if es[n] is Keep {
                before
            } else {
                before.push(
                    ChangeView {
                        line: n + 1,
                        before: content@,
                        after: edits::edit_after(es[n], content@, seq!['\n']),
                        context: None,
                    },
                )
            });
            assert(diff::changes_view(changes@) =~= collected(all));
        }
        (
            StreamPass {
                processor,
                total_changes,
                changes,
                line_num: line_num + 1,
                fed: Ghost(raws),
            },
            written,
        )
    }
}

/// What a change says a line became is the lines in its place, joined.
proof fn lemma_joined(edit: LineEdit, line: Seq<char>)
    requires
        !(edit is Keep),
    ensures
        edits::emitted(edit, line).len() > 0 ==> edits::edit_after(edit, line, "\n"@) == Some(
            edits::join(edits::emitted(edit, line), "\n"@),
        ),
        edits::emitted(edit, line).len() == 0 ==> edits::edit_after(edit, line, "\n"@) is None,
        "\n"@ == seq!['\n'],
{
    reveal_strlit("\n");
    assert("\n"@ =~= seq!['\n']);
    let ls = edits::emitted(edit, line);
    if ls.len() == 2 {
        assert(ls.drop_last() =~= seq![ls[0]]);
        reveal_with_fuel(edits::join, 3);
    }
}

/// Another line extends what a stream is turned into by what stands in place
/// of that line, and leaves what comes before as it is.
pub proof fn law_stream_grows_by_line(
    action: Action,
    m: MatcherView,
    range: Option<RangeView>,
    raws: Seq<Seq<char>>,
    raw: Seq<char>,
)
    ensures
        stream_text(action, m, range, raws.push(raw), (raws.len() + 1) as int) == stream_text(
            action,
            m,
            range,
            raws,
            raws.len() as int,
        ) + terminated(
            edits::emitted(
                stream_edits(action, m, range, raws.push(raw))[raws.len() as int],
                line_content(raw),
            ),
            terminator_of(raw),
        ),
{
    lemma_prefix(action, m, range, raws, raw, raws.len() as int);
    assert(contents(raws.push(raw))[raws.len() as int] == line_content(raw));
}

/// A stream in which nothing changes comes out as it went in.
pub proof fn law_unchanged_stream_is_exact(
    action: Action,
    m: MatcherView,
    range: Option<RangeView>,
    raws: Seq<Seq<char>>,
    n: int,
)
    requires
        0 <= n <= raws.len(),
        stream_changes(action, m, range, raws, n).len() == 0,
    ensures
        stream_text(action, m, range, raws, n) == concat(raws, n),
    decreases n,
{
    if n > 0 {
        law_unchanged_stream_is_exact(action, m, range, raws, n - 1);
        law_line_is_content_and_terminator(raws[n - 1]);
    }
}

/// The first `n` lines one behind the other.
pub open spec fn concat(raws: Seq<Seq<char>>, n: int) -> Seq<char>
    decreases n,
{
    if n <= 0 {
        Seq::empty()
    } else {
        concat(raws, n - 1) + raws[n - 1]
    }
}

} // verus!
