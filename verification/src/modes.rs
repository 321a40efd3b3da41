//! What a run is to do, by its arguments and its standard input.
use vstd::prelude::*;
use vstd::utf8::*;

use crate::cli::Cli;
use crate::encoding::string_from_utf8;
use crate::strings;
use crate::strings::str_eq;

verus! {

/// What a run does.
#[derive(Debug, Clone, PartialEq, Eq)]
pub enum Mode {
    /// Runs the script in this file.
    Script(String),
    /// Shows what can be undone.
    UndoList,
    /// Undoes so many records.
    Undo(usize),
    /// Edits standard input.
    Pipe,
    /// Reads a request from standard input.
    JsonStdin,
    /// Takes the request from the arguments.
    JsonArgument(String),
    /// A request was asked for, and there is none.
    JsonMissing,
    /// Standard input decides.
    Detect,
    /// Edits files.
    Files,
}

/// What a [`Mode`] says.
#[verifier::ext_equal]
pub enum ModeView {
    Script(Seq<char>),
    UndoList,
    Undo(int),
    Pipe,
    JsonStdin,
    JsonArgument(Seq<char>),
    JsonMissing,
    Detect,
    Files,
}

impl View for Mode {
    type V = ModeView;

    open spec fn view(&self) -> ModeView {
        match self {
            Mode::Script(s) => ModeView::Script(s@),
            Mode::UndoList => ModeView::UndoList,
            Mode::Undo(n) => ModeView::Undo(*n as int),
            Mode::Pipe => ModeView::Pipe,
            Mode::JsonStdin => ModeView::JsonStdin,
            Mode::JsonArgument(s) => ModeView::JsonArgument(s@),
            Mode::JsonMissing => ModeView::JsonMissing,
            Mode::Detect => ModeView::Detect,
            Mode::Files => ModeView::Files,
        }
    }
}

/// What a run does, by its arguments and whether standard input is a terminal:
/// a script, a list of what can be undone, an undo and a pipe come before all
/// else, in this order.
pub open spec fn mode_of(cli: Cli, stdin_is_tty: bool) -> ModeView {
    if cli.script is Some {
        ModeView::Script(cli.script->0@)
    } else if cli.undo_list {
        ModeView::UndoList
    } else if cli.undo is Some {
        ModeView::Undo(cli.undo->0 as int)
    } else if cli.pipe {
        ModeView::Pipe
    } else if stdin_is_tty {
        if cli.json {
            match cli.json_input {
                Some(s) => ModeView::JsonArgument(s@),
                None => ModeView::JsonMissing,
            }
        } else {
            ModeView::Files
        }
    } else {
        if cli.json {
            ModeView::JsonStdin
        } else if cli.no_json {
            ModeView::Pipe
        } else {
            ModeView::Detect
        }
    }
}

/// Chooses what a run does.
pub fn choose_mode(cli: &Cli, stdin_is_tty: bool) -> (m: Mode)
    ensures
        m@ == mode_of(*cli, stdin_is_tty),
{
    if let Some(path) = &cli.script {
        return Mode::Script(path.clone());
    }
    if cli.undo_list {
        return Mode::UndoList;
    }
    if let Some(count) = cli.undo {
        return Mode::Undo(count);
    }
    if cli.pipe {
        return Mode::Pipe;
    }
    if cli.json || (!stdin_is_tty && !cli.no_json) {
        if !stdin_is_tty {
            if cli.json {
                Mode::JsonStdin
            } else {
                Mode::Detect
            }
        } else if let Some(json) = &cli.json_input {
            Mode::JsonArgument(json.clone())
        } else {
            Mode::JsonMissing
        }
    } else if !stdin_is_tty {
        Mode::Pipe
    } else {
        Mode::Files
    }
}

/// What standard input turns out to be.
#[derive(Debug, Clone, Copy, PartialEq, Eq, Structural)]
pub enum StdinKind {
    /// Nothing is piped in: the run edits files.
    Empty,
    /// A request, perhaps, or text for a whole-buffer operation: read as a whole.
    Buffered,
    /// Text: edited line by line.
    Streamed,
}

/// Whether a byte is white space in ASCII.
pub open spec fn is_ascii_space(b: u8) -> bool {
    b == 32 || b == 9 || b == 10 || b == 12 || b == 13
}

/// The position of the first byte from `i` on that is not white space.
pub open spec fn first_visible(chunk: Seq<u8>, i: int) -> int
    decreases chunk.len() - i,
{
    if i >= chunk.len() {
        chunk.len() as int
    } else if is_ascii_space(chunk[i]) {
        first_visible(chunk, i + 1)
    } else {
        i
    }
}

/// What standard input is, by its first bytes.
pub open spec fn stdin_kind(chunk: Seq<u8>, multiline: bool) -> StdinKind {
    let i = first_visible(chunk, 0);
    if chunk.len() == 0 {
        StdinKind::Empty
    } else if (i < chunk.len() && chunk[i] == 123) || multiline {
        StdinKind::Buffered
    } else {
        StdinKind::Streamed
    }
}

/// Tells what standard input is by its first bytes: what starts with a brace
/// may be a request.
pub fn detect_stdin(chunk: &[u8], multiline: bool) -> (k: StdinKind)
    ensures
        k == stdin_kind(chunk@, multiline),
{
    let total = chunk.len();
    if total == 0 {
        return StdinKind::Empty;
    }
    let mut i: usize = 0;
    while i < total && (chunk[i] == 32 || chunk[i] == 9 || chunk[i] == 10 || chunk[i] == 12
        || chunk[i] == 13)
        invariant
            total == chunk@.len(),
            i <= total,
            first_visible(chunk@, 0) == first_visible(chunk@, i as int),
        decreases total - i,
    {
        i += 1;
    }
    if (i < total && chunk[i] == 123) || multiline {
        StdinKind::Buffered
    } else {
        StdinKind::Streamed
    }
}

/// The names at the top of the JSON object that a text is, `None` where the
/// text is something else.
pub uninterp spec fn json_names(text: Seq<char>) -> Option<Set<Seq<char>>>;

/// `serde_json::from_str` reads a whole text as a JSON object or fails, by the
/// text alone, and the keys of the map that it gives are the object's names,
/// each of them once, in no order that is claimed here.
#[verifier::external_body]
fn object_names(text: &str) -> (r: Option<Vec<String>>)
    ensures
        match r {
            Some(names) => json_names(text@) == Some(strings::strings_view(names@).to_set()),
            None => json_names(text@) is None,
        },
{
    match serde_json::from_str::<serde_json::Map<String, serde_json::Value>>(text) {
        Ok(fields) => Some(fields.keys().cloned().collect()),
        Err(_) => None,
    }
}

/// Whether an object with these names is a request: it asks for operations or
/// for an undo.
pub open spec fn asks(names: Set<Seq<char>>) -> bool {
    names.contains("operations"@) || names.contains("undo"@)
}

/// Tells whether an object with these names is a request.
pub fn is_request(names: &Vec<String>) -> (b: bool)
    ensures
        b == asks(strings::strings_view(names@).to_set()),
{
    let ghost all = strings::strings_view(names@);
    let total = names.len();
    let mut i: usize = 0;
    while i < total
        invariant
            total == names@.len() == all.len(),
            all == strings::strings_view(names@),
            i <= total,
            forall|k: int| #![trigger all[k]]
                0 <= k < i ==> all[k] != "operations"@ && all[k] != "undo"@,
        decreases total - i,
    {
        proof {
            assert(all[i as int] == names@[i as int]@);
        }
        if str_eq(names[i].as_str(), "operations") || str_eq(names[i].as_str(), "undo") {
            proof {
                assert(all.contains(all[i as int]));
            }
            return true;
        }
        i += 1;
    }
    false
}

/// The request that standard input is, `None` where it is text to edit.
pub open spec fn request_in(data: Seq<u8>) -> Option<Seq<char>> {
    if !valid_utf8(data) {
        None
    } else {
        let text = decode_utf8(data);
        match json_names(text) {
            Some(names) => if asks(names) {
                Some(text)
            } else {
                None
            },
            None => None,
        }
    }
}

/// Tells a request on standard input from text to edit.
pub fn request_text(data: &Vec<u8>) -> (r: Option<String>)
    ensures
        request_in(data@) == match r {
            Some(text) => Some(text@),
            None => None,
        },
{
    let bytes = vstd::slice::slice_to_vec(data.as_slice());
    match string_from_utf8(bytes) {
        Ok(text) => match object_names(text.as_str()) {
            Some(names) => if is_request(&names) {
                Some(text)
            } else {
                None
            },
            None => None,
        },
        Err(_) => None,
    }
}

/// Without a script, an undo or a pipe asked for, files are edited just where
/// standard input is a terminal and no request was asked for, or where
/// standard input decides and is empty.
pub proof fn law_files_need_a_terminal(cli: Cli, stdin_is_tty: bool)
    ensures
        mode_of(cli, stdin_is_tty) is Files ==> stdin_is_tty && !cli.json,
        mode_of(cli, stdin_is_tty) is Detect ==> !stdin_is_tty && !cli.json && !cli.no_json,
        cli.no_json && !cli.json ==> !(mode_of(cli, stdin_is_tty) is Detect || mode_of(
            cli,
            stdin_is_tty,
        ) is JsonStdin),
{
}

} // verus!
