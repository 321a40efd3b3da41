//! Pipes: from standard input to standard output.
use vstd::prelude::*;
use vstd::utf8::*;

use crate::cli;
use crate::cli::{build_pipe_op, Cli, PipeError};
use crate::encoding;
use crate::encoding::string_from_utf8;
use crate::engine;
use crate::error;
use crate::matcher;
use crate::matcher::{Matcher, MatcherView};
use crate::operation;
use crate::operation::{Op, OpView, RangeSpec, RangeView};
use crate::process;
use crate::rex;
use crate::run;
use crate::run::{exit_result, EXIT_ERROR};
use crate::stream;
use crate::stream::StreamPass;
use crate::strings;
use crate::strings::{owned, to_decimal};

verus! {

// ---------------------------------------------------------------------------
// The whole input at once
// ---------------------------------------------------------------------------

/// What a pipe writes, and how it ends.
#[derive(Debug, PartialEq, Eq)]
pub struct PipeOutput {
    pub stdout: String,
    /// What went wrong.
    pub stderr: Option<String>,
    pub exit: Result<(), i32>,
}

/// What a [`PipeOutput`] says.
#[verifier::ext_equal]
pub struct PipeOutputView {
    pub stdout: Seq<char>,
    pub stderr: Option<Seq<char>>,
    pub exit: Result<(), i32>,
}

impl View for PipeOutput {
    type V = PipeOutputView;

    open spec fn view(&self) -> PipeOutputView {
        PipeOutputView {
            stdout: self.stdout@,
            stderr: error::opt_view(self.stderr),
            exit: self.exit,
        }
    }
}

/// A pipe that went wrong.
pub open spec fn pipe_failure(message: Seq<char>) -> PipeOutputView {
    PipeOutputView { stdout: Seq::empty(), stderr: Some(message), exit: Err(EXIT_ERROR) }
}

/// The range that the arguments ask for.
pub open spec fn range_of(cli: Cli) -> Option<RangeView> {
    match operation::pattern_range_view(cli.range) {
        Some((start, end)) => Some(RangeView::Patterns { start, end }),
        None => match cli.line_range {
            Some(l) => Some(RangeView::Lines(l)),
            None => None,
        },
    }
}

/// What a pipe makes of a text.
pub open spec fn pipe_text(cli: Cli, op: OpView, text: Seq<char>) -> PipeOutputView {
    match engine::apply_result(text, op, matcher::matcher_of(op), range_of(cli), 0) {
        Err(e) => pipe_failure("ripsed: "@ + process::error_display(e)),
        Ok(out) => PipeOutputView {
            stdout: if cli.count {
                strings::decimal(out.changes.len()) + "\n"@
            } else {
                match out.text {
                    Some(t) => t,
                    None => text,
                }
            },
            stderr: None,
            exit: run::exit_of(false, out.changes.len() as int),
        },
    }
}

/// What a pipe makes of its input.
pub open spec fn pipe_result(cli: Cli, data: Seq<u8>) -> PipeOutputView {
    if !valid_utf8(data) {
        pipe_failure("ripsed: stdin is not valid UTF-8: "@ + encoding::utf8_error_text(data))
    } else if cli.find is None {
        pipe_failure("ripsed: missing FIND pattern"@)
    } else {
        let op = cli::op_of_cli(cli, cli.find->0@);
        if matcher::is_compiled(op) && rex::regex_compile_error(matcher::compiled_source(op))
            is Some {
            pipe_failure(
                "ripsed: "@ + process::error_display(
                    matcher::bad_pattern(
                        op,
                        rex::regex_compile_error(matcher::compiled_source(op))->0,
                    ),
                ),
            )
        } else {
            pipe_text(cli, op, decode_utf8(data))
        }
    }
}

/// A pipe that went wrong.
fn failure(lead: &str, detail: &str) -> (r: PipeOutput)
    ensures
        r@ == pipe_failure(lead@ + detail@),
{
    let mut message = owned(lead);
    message.append(detail);
    let stdout = String::new();
    PipeOutput { stdout, stderr: Some(message), exit: Err(EXIT_ERROR) }
}

/// Runs a pipe over input that is in memory as a whole.
pub fn run_pipe_mode(cli: &Cli, data: Vec<u8>) -> (r: PipeOutput)
    requires
        cli::surround_is_used(*cli) ==> cli.surround->0@.len() >= 2,
    ensures
        r@ == pipe_result(*cli, data@),
{
    let text = match string_from_utf8(data) {
        Ok(t) => t,
        Err(e) => {
            return failure("ripsed: stdin is not valid UTF-8: ", e.as_str());
        },
    };
    let pipe = match build_pipe_op(cli) {
        Ok(p) => p,
        Err(PipeError::MissingPattern) => {
            let f = failure("ripsed: missing FIND pattern", "");
            proof {
                reveal_strlit("");
                assert("ripsed: missing FIND pattern"@ + ""@ =~= "ripsed: missing FIND pattern"@);
            }
            return f;
        },
        Err(PipeError::BadPattern(e)) => {
            return failure("ripsed: ", e.display().as_str());
        },
    };
    match engine::apply(text.as_str(), &pipe.op, &pipe.matcher, pipe.range, 0) {
        Ok(output) => {
            let total = output.changes.len();
            let stdout = if cli.count {
                let mut n = to_decimal(total);
                n.append("\n");
                n
            } else {
                match output.text {
                    Some(t) => t,
                    None => text,
                }
            };
            PipeOutput { stdout, stderr: None, exit: exit_result(false, total) }
        },
        Err(e) => failure("ripsed: ", e.display().as_str()),
    }
}

// ---------------------------------------------------------------------------
// Line by line
// ---------------------------------------------------------------------------

/// What a streaming pipe wants done.
#[derive(Debug, Clone, PartialEq, Eq)]
pub enum PipeStep {
    /// Read the next line, with its terminator.
    ReadLine,
    /// Write this.
    Emit(String),
    /// Flush what was written.
    Flush,
    /// Nothing more.
    Finish,
}

/// How it went.
#[derive(Debug, Clone, PartialEq, Eq)]
pub enum PipeEvent {
    Done,
    Line(String),
    EndOfInput,
    /// Nobody reads what is written any more.
    Closed,
    Failed(String),
}

/// What a [`PipeEvent`] says.
#[verifier::ext_equal]
pub enum PipeEventView {
    Done,
    Line(Seq<char>),
    EndOfInput,
    Closed,
    Failed(Seq<char>),
}

impl View for PipeEvent {
    type V = PipeEventView;

    open spec fn view(&self) -> PipeEventView {
        match self {
            PipeEvent::Done => PipeEventView::Done,
            PipeEvent::Line(s) => PipeEventView::Line(s@),
            PipeEvent::EndOfInput => PipeEventView::EndOfInput,
            PipeEvent::Closed => PipeEventView::Closed,
            PipeEvent::Failed(e) => PipeEventView::Failed(e@),
        }
    }
}

enum PipeStage {
    Reading,
    Emitting { text: String },
    Counting { text: String },
    Flushing,
    Finished { message: Option<String>, exit: Result<(), i32> },
}

/// Where a streaming pipe stands.
#[verifier::ext_equal]
pub enum PipeStageView {
    /// Waiting for a line.
    Reading,
    /// Waiting for this text to be written.
    Emitting { text: Seq<char> },
    /// Waiting for the count to be written.
    Counting { text: Seq<char> },
    /// Waiting for the end of the output to be written.
    Flushing,
    /// Done.
    Finished { message: Option<Seq<char>>, exit: Result<(), i32> },
}

impl PipeStage {
    spec fn shown(self) -> PipeStageView {
        match self {
            PipeStage::Reading => PipeStageView::Reading,
            PipeStage::Emitting { text } => PipeStageView::Emitting { text: text@ },
            PipeStage::Counting { text } => PipeStageView::Counting { text: text@ },
            PipeStage::Flushing => PipeStageView::Flushing,
            PipeStage::Finished { message, exit } => PipeStageView::Finished {
                message: error::opt_view(message),
                exit,
            },
        }
    }
}

/// A pipe that edits its input line by line.
pub struct PipeStream<'a> {
    pass: StreamPass<'a>,
    count: bool,
    stage: PipeStage,
}

/// What a [`PipeStream`] is about, and where it stands.
#[verifier::ext_equal]
pub struct PipeView {
    pub op: OpView,
    pub matcher: MatcherView,
    pub range: Option<RangeView>,
    /// Whether only the number of changes is written.
    pub count: bool,
    /// The lines that were read.
    pub fed: Seq<Seq<char>>,
    pub stage: PipeStageView,
}

/// How many lines have been changed.
pub open spec fn pipe_changes(p: PipeView) -> nat {
    stream::stream_changes(
        p.op.action,
        p.matcher,
        p.range,
        p.fed,
        p.fed.len() as int,
    ).len()
}

/// A pipe that ends.
pub open spec fn pipe_ended(p: PipeView, message: Option<Seq<char>>, exit: Result<(), i32>) -> PipeView {
    PipeView { stage: PipeStageView::Finished { message, exit }, ..p }
}

/// A pipe that has read another line. Where only the number of changes is
/// asked for, nothing is written for it.
pub open spec fn pipe_fed(p: PipeView, line: Seq<char>) -> PipeView {
    let fed = p.fed.push(line);
    PipeView {
        fed,
        stage: if p.count {
            PipeStageView::Reading
        } else {
            PipeStageView::Emitting {
                text: stream::terminated(
                    crate::edits::emitted(
                        stream::stream_edits(p.op.action, p.matcher, p.range, fed)[p.fed.len() as int],
                        stream::line_content(line),
                    ),
                    stream::terminator_of(line),
                ),
            }
        },
        ..p
    }
}

/// What becomes of a pipe that is told how its last step went. A reader that
/// went away is no error. An answer that does not fit changes nothing.
pub open spec fn answered(p: PipeView, event: PipeEventView) -> PipeView {
    match (p.stage, event) {
        (PipeStageView::Reading, PipeEventView::Line(s)) => pipe_fed(p, s),
        (PipeStageView::Reading, PipeEventView::EndOfInput) => PipeView {
            stage: if p.count {
                PipeStageView::Counting { text: strings::decimal(pipe_changes(p)) + "\n"@ }
            } else {
                PipeStageView::Flushing
            },
            ..p
        },
        (PipeStageView::Reading, PipeEventView::Failed(e)) => pipe_ended(
            p,
            Some("ripsed: failed to read stdin: "@ + e),
            Err(EXIT_ERROR),
        ),
        (PipeStageView::Emitting { .. }, PipeEventView::Done) => PipeView {
            stage: PipeStageView::Reading,
            ..p
        },
        (PipeStageView::Emitting { .. }, PipeEventView::Closed) => pipe_ended(p, None, Ok(())),
        (PipeStageView::Emitting { .. }, PipeEventView::Failed(e)) => pipe_ended(
            p,
            Some("ripsed: failed to write output: "@ + e),
            Err(EXIT_ERROR),
        ),
        (PipeStageView::Counting { .. }, PipeEventView::Done) => PipeView {
            stage: PipeStageView::Flushing,
            ..p
        },
        (PipeStageView::Counting { .. }, PipeEventView::Closed) => PipeView {
            stage: PipeStageView::Flushing,
            ..p
        },
        (PipeStageView::Counting { .. }, PipeEventView::Failed(_)) => PipeView {
            stage: PipeStageView::Flushing,
            ..p
        },
        (PipeStageView::Flushing, PipeEventView::Done) => pipe_ended(
            p,
            None,
            run::exit_of(false, pipe_changes(p) as int),
        ),
        (PipeStageView::Flushing, PipeEventView::Closed) => pipe_ended(
            p,
            None,
            run::exit_of(false, pipe_changes(p) as int),
        ),
        (PipeStageView::Flushing, PipeEventView::Failed(e)) => pipe_ended(
            p,
            Some("ripsed: failed to write output: "@ + e),
            Err(EXIT_ERROR),
        ),
        _ => p,
    }
}

impl<'a> View for PipeStream<'a> {
    type V = PipeView;

    closed spec fn view(&self) -> PipeView {
        PipeView {
            op: self.pass.op(),
            matcher: self.pass.matcher(),
            range: self.pass.range(),
            count: self.count,
            fed: self.pass.fed(),
            stage: self.stage.shown(),
        }
    }
}

impl<'a> PipeStream<'a> {
    /// A pipe before its first line. Whole-buffer operations cannot be streamed.
    pub fn new(op: &'a Op, matcher: &'a Matcher, range: Option<RangeSpec>, count: bool) -> (r: Result<
        PipeStream<'a>,
        error::RipsedError,
    >)
        ensures
            match r {
                Ok(p) => engine::stream_error(op@, operation::range_view(range)) is None && p@
                    == (PipeView {
                    op: op@,
                    matcher: matcher@,
                    range: operation::range_view(range),
                    count,
                    fed: Seq::empty(),
                    stage: PipeStageView::Reading,
                }),
                Err(e) => engine::stream_error(op@, operation::range_view(range)) == Some(e@),
            },
    {
        match StreamPass::new(op, matcher, range) {
            Ok(pass) => Ok(PipeStream { pass, count, stage: PipeStage::Reading }),
            Err(e) => Err(e),
        }
    }

    /// What the pipe wants done.
    pub fn action(&self) -> (a: PipeStep)
        ensures
            match self@.stage {
                PipeStageView::Reading => a is ReadLine,
                PipeStageView::Emitting { text } => a matches PipeStep::Emit(s) && s@ == text,
                PipeStageView::Counting { text } => a matches PipeStep::Emit(s) && s@ == text,
                PipeStageView::Flushing => a is Flush,
                PipeStageView::Finished { .. } => a is Finish,
            },
    {
        match &self.stage {
            PipeStage::Reading => PipeStep::ReadLine,
            PipeStage::Emitting { text } => PipeStep::Emit(text.clone()),
            PipeStage::Counting { text } => PipeStep::Emit(text.clone()),
            PipeStage::Flushing => PipeStep::Flush,
            PipeStage::Finished { .. } => PipeStep::Finish,
        }
    }

    /// How many lines have been read.
    pub fn lines_read(&self) -> (n: usize)
        ensures
            n == self@.fed.len(),
    {
        self.pass.line_count()
    }

    /// What the pipe says at its end, and how it ends.
    pub fn result(&self) -> (r: Option<(Option<String>, Result<(), i32>)>)
        ensures
            match self@.stage {
                PipeStageView::Finished { message, exit } => r matches Some((m, x))
                    && error::opt_view(m) == message && x == exit,
                _ => r is None,
            },
    {
        match &self.stage {
            PipeStage::Finished { message, exit } => {
                let copy = match message {
                    Some(m) => Some(m.clone()),
                    None => None,
                };
                let code = match exit {
                    Ok(u) => Ok(*u),
                    Err(c) => Err(*c),
                };
                Some((copy, code))
            },
            _ => None,
        }
    }

    fn fail(self, lead: &str, detail: &str) -> (p: PipeStream<'a>)
        ensures
            p@ == pipe_ended(self@, Some(lead@ + detail@), Err(EXIT_ERROR)),
    {
        let mut message = owned(lead);
        message.append(detail);
        PipeStream {
            pass: self.pass,
            count: self.count,
            stage: PipeStage::Finished { message: Some(message), exit: Err(EXIT_ERROR) },
        }
    }

    fn end(self) -> (p: PipeStream<'a>)
        ensures
            p@ == pipe_ended(self@, None, run::exit_of(false, pipe_changes(self@) as int)),
    {
        let total = self.pass.total_changes();
        PipeStream {
            pass: self.pass,
            count: self.count,
            stage: PipeStage::Finished { message: None, exit: exit_result(false, total) },
        }
    }

    /// Tells the pipe how its last step went.
    pub fn answer(self, event: PipeEvent) -> (p: PipeStream<'a>)
        requires
            self@.fed.len() < usize::MAX,
        ensures
            p@ == answered(self@, event@),
    {
        let PipeStream { pass, count, stage } = self;
        match stage {
            PipeStage::Reading => match event {
                PipeEvent::Line(s) => {
                    let (pass, text) = pass.feed(s.as_str());
                    let stage = if count {
                        PipeStage::Reading
                    } else {
                        PipeStage::Emitting { text }
                    };
                    PipeStream { pass, count, stage }
                },
                PipeEvent::EndOfInput => {
                    let stage = if count {
                        let mut text = to_decimal(pass.total_changes());
                        text.append("\n");
                        PipeStage::Counting { text }
                    } else {
                        PipeStage::Flushing
                    };
                    PipeStream { pass, count, stage }
                },
                PipeEvent::Failed(e) => PipeStream { pass, count, stage: PipeStage::Reading }.fail(
                    "ripsed: failed to read stdin: ",
                    e.as_str(),
                ),
                _ => PipeStream { pass, count, stage: PipeStage::Reading },
            },
            PipeStage::Emitting { text } => match event {
                PipeEvent::Done => PipeStream { pass, count, stage: PipeStage::Reading },
                PipeEvent::Closed => PipeStream {
                    pass,
                    count,
                    stage: PipeStage::Finished { message: None, exit: Ok(()) },
                },
                PipeEvent::Failed(e) => PipeStream { pass, count, stage: PipeStage::Reading }.fail(
                    "ripsed: failed to write output: ",
                    e.as_str(),
                ),
                _ => PipeStream { pass, count, stage: PipeStage::Emitting { text } },
            },
            PipeStage::Counting { text } => match event {
                PipeEvent::Done | PipeEvent::Closed | PipeEvent::Failed(_) => PipeStream {
                    pass,
                    count,
                    stage: PipeStage::Flushing,
                },
                _ => PipeStream { pass, count, stage: PipeStage::Counting { text } },
            },
            PipeStage::Flushing => match event {
                PipeEvent::Done | PipeEvent::Closed => PipeStream {
                    pass,
                    count,
                    stage: PipeStage::Flushing,
                }.end(),
                PipeEvent::Failed(e) => PipeStream { pass, count, stage: PipeStage::Flushing }.fail(
                    "ripsed: failed to write output: ",
                    e.as_str(),
                ),
                _ => PipeStream { pass, count, stage: PipeStage::Flushing },
            },
            PipeStage::Finished { message, exit } => PipeStream {
                pass,
                count,
                stage: PipeStage::Finished { message, exit },
            },
        }
    }
}

/// What a pipe has written behind its first `n` steps, each of which went well.
pub open spec fn pipe_written(p: PipeView, lines: Seq<Seq<char>>, n: int) -> Seq<char> {
    stream::stream_text(p.op.action, p.matcher, p.range, lines, n)
}

/// A line that is read and written extends what the pipe has written by what
/// stands in place of that line.
pub proof fn law_pipe_writes_the_stream(p: PipeView, line: Seq<char>)
    requires
        p.stage is Reading,
        !p.count,
    ensures
        ({
            let q = answered(p, PipeEventView::Line(line));
            &&& q.stage matches PipeStageView::Emitting { text }
            &&& q.fed == p.fed.push(line)
            &&& pipe_written(q, q.fed, q.fed.len() as int) == pipe_written(
                p,
                p.fed,
                p.fed.len() as int,
            ) + text
        }),
{
    stream::law_stream_grows_by_line(p.op.action, p.matcher, p.range, p.fed, line);
}

} // verus!
