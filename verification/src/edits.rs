//! What becomes of the lines of a text, and the record of it.
//!
//! An operation decides on one edit per line. The changed text and the list of
//! changes both follow from the lines and their edits.
use vstd::prelude::*;

use crate::diff;
use crate::diff::{Change, ChangeContext, ChangeView, ContextView};
use crate::lines;
use crate::strings;
use crate::strings::owned;
use crate::undo::UndoEntry;

verus! {

/// Context is attached to at most this many changes of one text.
pub const MAX_CONTEXTED_CHANGES: usize = 1000;

/// The result of applying an operation to a text.
#[derive(Debug)]
pub struct EngineOutput {
    /// The modified text (`None` where nothing changed).
    pub text: Option<String>,
    /// The changes made.
    pub changes: Vec<Change>,
    /// What reverses the operation.
    pub undo: Option<UndoEntry>,
}

/// What an [`EngineOutput`] holds.
#[verifier::ext_equal]
pub struct OutputView {
    pub text: Option<Seq<char>>,
    pub changes: Seq<ChangeView>,
    pub undo: Option<Seq<char>>,
}

impl View for EngineOutput {
    type V = OutputView;

    open spec fn view(&self) -> OutputView {
        OutputView {
            text: crate::error::opt_view(self.text),
            changes: diff::changes_view(self.changes@),
            undo: match self.undo {
                Some(u) => Some(u.original_text@),
                None => None,
            },
        }
    }
}

/// The output of an operation that changes nothing.
pub open spec fn no_change() -> OutputView {
    OutputView { text: None, changes: Seq::empty(), undo: None }
}

/// The output of an operation that changes nothing.
pub fn unchanged() -> (r: EngineOutput)
    ensures
        r@ == no_change(),
{
    let changes: Vec<Change> = Vec::new();
    proof {
        assert(diff::changes_view(changes@) =~= Seq::<ChangeView>::empty());
    }
    EngineOutput { text: None, changes, undo: None }
}

/// What becomes of one line.
#[verifier::ext_equal]
pub enum LineEdit {
    /// The line stays.
    Keep,
    /// Another line takes its place.
    Put { line: Seq<char> },
    /// The line goes.
    Drop,
    /// A line is inserted behind it.
    After { content: Seq<char> },
    /// A line is inserted before it.
    Before { content: Seq<char> },
}

/// The lines that stand in place of an edited line.
pub open spec fn emitted(edit: LineEdit, line: Seq<char>) -> Seq<Seq<char>> {
    match edit {
        LineEdit::Keep => seq![line],
        LineEdit::Put { line: new_line } => seq![new_line],
        LineEdit::Drop => Seq::empty(),
        LineEdit::After { content } => seq![line, content],
        LineEdit::Before { content } => seq![content, line],
    }
}

/// What a change says the line became.
pub open spec fn edit_after(edit: LineEdit, line: Seq<char>, sep: Seq<char>) -> Option<Seq<char>> {
    match edit {
        LineEdit::Keep => Some(line),
        LineEdit::Put { line: new_line } => Some(new_line),
        LineEdit::Drop => None,
        LineEdit::After { content } => Some(line + sep + content),
        LineEdit::Before { content } => Some(content + sep + line),
    }
}

/// Up to `n` lines on either side of line `idx`.
pub open spec fn context_around(ls: Seq<Seq<char>>, idx: int, n: int) -> ContextView {
    ContextView {
        before: ls.subrange(
            if idx < n {
                0
            } else {
                idx - n
            },
            idx,
        ),
        after: ls.subrange(
            idx + 1,
            if idx + 1 + n > ls.len() {
                ls.len() as int
            } else {
                idx + 1 + n
            },
        ),
    }
}

/// The context that change number `done` carries: none where none is asked
/// for, and none past the cap.
pub open spec fn change_context(ls: Seq<Seq<char>>, idx: int, n: int, done: nat) -> Option<ContextView> {
    if n <= 0 || done >= MAX_CONTEXTED_CHANGES {
        None
    } else {
        Some(context_around(ls, idx, n))
    }
}

/// The changes of the first `n` lines: one for each line that is not kept, in order.
pub open spec fn edit_changes(
    ls: Seq<Seq<char>>,
    edits: Seq<LineEdit>,
    sep: Seq<char>,
    context_lines: int,
    n: int,
) -> Seq<ChangeView>
    decreases n,
{
    if n <= 0 {
        Seq::empty()
    } else {
        let p = edit_changes(ls, edits, sep, context_lines, n - 1);
        if edits[n - 1] is Keep {
            p
        } else {
            p.push(
                ChangeView {
                    line: n,
                    before: ls[n - 1],
                    after: edit_after(edits[n - 1], ls[n - 1], sep),
                    context: change_context(ls, n - 1, context_lines, p.len()),
                },
            )
        }
    }
}

/// What the first `n` lines become.
pub open spec fn edit_lines(ls: Seq<Seq<char>>, edits: Seq<LineEdit>, n: int) -> Seq<Seq<char>>
    decreases n,
{
    if n <= 0 {
        Seq::empty()
    } else {
        edit_lines(ls, edits, n - 1) + emitted(edits[n - 1], ls[n - 1])
    }
}

/// Lines with a separator between them.
pub open spec fn join(ls: Seq<Seq<char>>, sep: Seq<char>) -> Seq<char>
    decreases ls.len(),
{
    if ls.len() == 0 {
        Seq::empty()
    } else if ls.len() == 1 {
        ls[0]
    } else {
        join(ls.drop_last(), sep) + sep + ls.last()
    }
}

/// Lines as a text: separated, and terminated where `terminated` says so and
/// there are lines at all.
pub open spec fn rejoin(ls: Seq<Seq<char>>, sep: Seq<char>, terminated: bool) -> Seq<char> {
    join(ls, sep) + if terminated && ls.len() > 0 {
        sep
    } else {
        Seq::empty()
    }
}

/// Whether a text ends in a line terminator.
pub open spec fn ends_with_newline(s: Seq<char>) -> bool {
    s.len() > 0 && s.last() == '\n'
}

/// The output of editing the lines of a text.
pub open spec fn edited_output(
    text: Seq<char>,
    edits: Seq<LineEdit>,
    sep: Seq<char>,
    context_lines: int,
) -> OutputView {
    let ls = lines::lines(text);
    let changes = edit_changes(ls, edits, sep, context_lines, ls.len() as int);
    if changes.len() == 0 {
        no_change()
    } else {
        OutputView {
            text: Some(
                rejoin(edit_lines(ls, edits, ls.len() as int), sep, ends_with_newline(text)),
            ),
            changes,
            undo: Some(text),
        }
    }
}

/// Copies a stretch of lines.
pub fn copy_lines(ls: &Vec<&str>, from: usize, to: usize) -> (r: Vec<String>)
    requires
        from <= to <= ls@.len(),
    ensures
        strings::strings_view(r@) == strings::strs_view(ls@).subrange(from as int, to as int),
{
    let mut out: Vec<String> = Vec::new();
    let mut i: usize = from;
    while i < to
        invariant
            from <= i <= to <= ls@.len(),
            out@.len() == i - from,
            forall|k: int| #![trigger out@[k]] 0 <= k < i - from ==> out@[k]@ == ls@[from + k]@,
        decreases to - i,
    {
        out.push(owned(ls[i]));
        i += 1;
    }
    proof {
        assert(strings::strings_view(out@) =~= strings::strs_view(ls@).subrange(
            from as int,
            to as int,
        ));
    }
    out
}

/// Up to `context_lines` lines on either side of line `idx`.
pub fn build_context(ls: &Vec<&str>, idx: usize, context_lines: usize) -> (r: ChangeContext)
    requires
        idx < ls@.len(),
    ensures
        r@ == context_around(strings::strs_view(ls@), idx as int, context_lines as int),
{
    let start: usize = if idx < context_lines {
        0
    } else {
        idx - context_lines
    };
    let rest: usize = ls.len() - (idx + 1);
    let end: usize = if context_lines > rest {
        ls.len()
    } else {
        idx + 1 + context_lines
    };
    ChangeContext { before: copy_lines(ls, start, idx), after: copy_lines(ls, idx + 1, end) }
}

/// Joins lines with a separator.
pub fn join_lines(ls: &Vec<String>, sep: &str) -> (r: String)
    ensures
        r@ == join(strings::strings_view(ls@), sep@),
{
    let ghost v = strings::strings_view(ls@);
    let mut out = String::new();
    let mut i: usize = 0;
    proof {
        assert(v.take(0) =~= Seq::<Seq<char>>::empty());
    }
    while i < ls.len()
        invariant
            v == strings::strings_view(ls@),
            i <= ls@.len(),
            out@ == join(v.take(i as int), sep@),
        decreases ls@.len() - i,
    {
        proof {
            assert(v.take(i + 1).drop_last() =~= v.take(i as int));
            assert(v.take(i + 1).last() == ls@[i as int]@);
            if i == 0 {
                assert(out@ =~= Seq::<char>::empty());
                assert(out@ + ls@[0]@ =~= ls@[0]@);
            }
        }
        if i > 0 {
            out.append(sep);
        }
        out.append(ls[i].as_str());
        i += 1;
    }
    proof {
        assert(v.take(ls@.len() as int) =~= v);
    }
    out
}

/// Whether a text ends in a line terminator.
pub fn has_final_newline(text: &str) -> (b: bool)
    ensures
        b == ends_with_newline(text@),
{
    let bytes = text.as_bytes();
    let ghost s = text@;
    proof {
        crate::offsets::lemma_byte_pos_ends(s);
        crate::offsets::lemma_encode_len(s);
    }
    if bytes.len() == 0 {
        return false;
    }
    proof {
        if s.len() > 0 && s.last() == '\n' {
            crate::offsets::lemma_ascii_at(s, s.len() - 1);
        }
        if bytes@[bytes@.len() - 1] == 10u8 {
            let k = crate::offsets::lemma_ascii_byte(s, bytes@.len() - 1);
            crate::offsets::lemma_ascii_at(s, k);
            crate::offsets::lemma_byte_pos_injective(s, k + 1, s.len() as int);
        }
    }
    bytes[bytes.len() - 1] == 10u8
}

} // verus!
