//! Scripts: one operation per line, with comments.
use vstd::prelude::*;

use crate::error;
use crate::error::RipsedError;
use crate::lines;
use crate::lines::split_lines;
use crate::operation;
use crate::operation::{Action, Op, OpView, ReplaceCount, TransformMode, DEFAULT_INDENT_AMOUNT};
use crate::strings;
use crate::strings::{chars_of, owned, parse_usize, str_eq, string_of, to_decimal};
use crate::transform;

verus! {

/// A parsed script: its operations in order.
#[derive(Debug, Clone)]
pub struct Script {
    pub operations: Vec<ScriptOp>,
}

/// One operation of a script, optionally limited to files that match a glob.
#[derive(Debug, Clone)]
pub struct ScriptOp {
    pub op: Op,
    pub glob: Option<String>,
}

/// What a [`ScriptOp`] says.
#[verifier::ext_equal]
pub struct ScriptOpView {
    pub op: OpView,
    pub glob: Option<Seq<char>>,
}

impl View for ScriptOp {
    type V = ScriptOpView;

    open spec fn view(&self) -> ScriptOpView {
        ScriptOpView { op: self.op@, glob: error::opt_view(self.glob) }
    }
}

/// The views of a list of operations.
pub open spec fn script_view(v: Seq<ScriptOp>) -> Seq<ScriptOpView> {
    v.map_values(|o: ScriptOp| o@)
}

// ---------------------------------------------------------------------------
// Trimming
// ---------------------------------------------------------------------------

/// A text without the whitespace it starts with.
pub open spec fn trim_start(s: Seq<char>) -> Seq<char>
    decreases s.len(),
{
    if s.len() > 0 && strings::char_whitespace(s[0]) {
        trim_start(s.skip(1))
    } else {
        s
    }
}

/// A text without the whitespace it ends with.
pub open spec fn trim_end(s: Seq<char>) -> Seq<char>
    decreases s.len(),
{
    if s.len() > 0 && strings::char_whitespace(s.last()) {
        trim_end(s.drop_last())
    } else {
        s
    }
}

/// A text without the whitespace around it.
pub open spec fn trim(s: Seq<char>) -> Seq<char> {
    trim_end(trim_start(s))
}

/// Where the whitespace that a stretch of characters ends with starts.
fn end_of_text(chars: &Vec<char>, from: usize, to: usize) -> (r: usize)
    requires
        from <= to <= chars@.len(),
    ensures
        from <= r <= to,
        chars@.subrange(from as int, r as int) == trim_end(
            chars@.subrange(from as int, to as int),
        ),
{
    let mut end: usize = to;
    while end > from && chars[end - 1].is_whitespace()
        invariant
            from <= end <= to <= chars@.len(),
            trim_end(chars@.subrange(from as int, to as int)) == trim_end(
                chars@.subrange(from as int, end as int),
            ),
        decreases end,
    {
        proof {
            let cur = chars@.subrange(from as int, end as int);
            assert(cur.last() == chars@[end - 1]);
            assert(cur.drop_last() =~= chars@.subrange(from as int, end - 1));
        }
        end -= 1;
    }
    proof {
        let cur = chars@.subrange(from as int, end as int);
        if end > from {
            assert(cur.last() == chars@[end - 1]);
        }
    }
    end
}

/// The characters of a text without the whitespace around it.
pub fn trimmed_chars(s: &str) -> (r: Vec<char>)
    ensures
        r@ == trim(s@),
{
    let chars = chars_of(s);
    let total = chars.len();
    let mut start: usize = 0;
    proof {
        assert(chars@.subrange(0, total as int) =~= s@);
    }
    while start < total && chars[start].is_whitespace()
        invariant
            chars@ == s@,
            total == chars@.len(),
            start <= total,
            trim_start(s@) == trim_start(chars@.subrange(start as int, total as int)),
        decreases total - start,
    {
        proof {
            let cur = chars@.subrange(start as int, total as int);
            assert(cur[0] == chars@[start as int]);
            assert(cur.skip(1) =~= chars@.subrange(start + 1, total as int));
        }
        start += 1;
    }
    proof {
        let cur = chars@.subrange(start as int, total as int);
        if start < total {
            assert(cur[0] == chars@[start as int]);
        }
    }
    let end = end_of_text(&chars, start, total);
    let mut out: Vec<char> = Vec::new();
    let mut i: usize = start;
    while i < end
        invariant
            start <= i <= end <= chars@.len(),
            out@ == chars@.subrange(start as int, i as int),
        decreases end - i,
    {
        out.push(chars[i]);
        i += 1;
        proof {
            assert(chars@.subrange(start as int, i - 1).push(chars@[i - 1]) =~= chars@.subrange(
                start as int,
                i as int,
            ));
        }
    }
    out
}

// ---------------------------------------------------------------------------
// Comments
// ---------------------------------------------------------------------------

/// Where a scan for a comment stands: in which quotes, and whether the next
/// character is escaped.
#[verifier::ext_equal]
pub struct QuoteState {
    pub double: bool,
    pub single: bool,
    pub escaped: bool,
}

/// The state behind one character. In single quotes there are no escapes.
pub open spec fn quote_step(q: QuoteState, c: char) -> QuoteState {
    if q.escaped {
        QuoteState { escaped: false, ..q }
    } else if c == '\\' && !q.single {
        QuoteState { escaped: true, ..q }
    } else if c == '"' && !q.single {
        QuoteState { double: !q.double, ..q }
    } else if c == '\'' && !q.double {
        QuoteState { single: !q.single, ..q }
    } else {
        q
    }
}

/// The state before character `i` of a line.
pub open spec fn quote_at(line: Seq<char>, i: int) -> QuoteState
    decreases i,
{
    if i <= 0 {
        QuoteState { double: false, single: false, escaped: false }
    } else {
        quote_step(quote_at(line, i - 1), line[i - 1])
    }
}

/// Whether a comment starts at character `i`: a `#` outside quotes that is not escaped.
pub open spec fn comment_at(line: Seq<char>, i: int) -> bool {
    let q = quote_at(line, i);
    line[i] == '#' && !q.escaped && !q.double && !q.single
}

/// A line without its inline comment and the whitespace before it.
pub open spec fn without_comment(line: Seq<char>, i: int) -> Seq<char>
    decreases line.len() - i,
{
    if i >= line.len() {
        line
    } else if comment_at(line, i) {
        trim_end(line.take(i))
    } else {
        without_comment(line, i + 1)
    }
}

/// Strips an inline comment from a line, respecting quotes.
pub fn strip_inline_comment(line: &str) -> (r: String)
    ensures
        r@ == without_comment(line@, 0),
{
    let chars = strip_comment_chars(&chars_of(line));
    let r = string_of(&chars, 0, chars.len());
    proof {
        assert(r@ =~= chars@);
    }
    r
}

/// Strips an inline comment from a line.
fn strip_comment_chars(line: &Vec<char>) -> (r: Vec<char>)
    ensures
        r@ == without_comment(line@, 0),
{
    let mut double = false;
    let mut single = false;
    let mut escaped = false;
    let mut i: usize = 0;
    while i < line.len()
        invariant
            i <= line@.len(),
            (QuoteState { double, single, escaped }) == quote_at(line@, i as int),
            without_comment(line@, 0) == without_comment(line@, i as int),
        decreases line@.len() - i,
    {
        let c = line[i];
        if escaped {
            escaped = false;
        } else if c == '\\' && !single {
            escaped = true;
        } else if c == '"' && !single {
            double = !double;
        } else if c == '\'' && !double {
            single = !single;
        } else if c == '#' && !double && !single {
            proof {
                assert(comment_at(line@, i as int));
                assert(line@.subrange(0, i as int) =~= line@.take(i as int));
            }
            let end = end_of_text(line, 0, i);
            return copy_chars(line, end);
        }
        i += 1;
    }
    proof {
        assert(line@.subrange(0, line@.len() as int) =~= line@);
    }
    copy_chars(line, line.len())
}

/// The first `to` characters of a list.
fn copy_chars(chars: &Vec<char>, to: usize) -> (r: Vec<char>)
    requires
        to <= chars@.len(),
    ensures
        r@ == chars@.subrange(0, to as int),
{
    let mut out: Vec<char> = Vec::new();
    let mut i: usize = 0;
    while i < to
        invariant
            i <= to <= chars@.len(),
            out@ == chars@.subrange(0, i as int),
        decreases to - i,
    {
        out.push(chars[i]);
        i += 1;
        proof {
            assert(chars@.subrange(0, i - 1).push(chars@[i - 1]) =~= chars@.subrange(0, i as int));
        }
    }
    out
}

// ---------------------------------------------------------------------------
// Tokens
// ---------------------------------------------------------------------------

/// What kind of text a tokenizer is in.
#[derive(Clone, Copy, PartialEq, Eq, Structural)]
pub enum TokenMode {
    Plain,
    Double,
    /// In double quotes, behind a backslash.
    Escape,
    Single,
}

/// Where a tokenizer stands: the tokens so far, the token being read, whether
/// that token was quoted (so that it counts although it is empty), and the mode.
#[verifier::ext_equal]
pub struct TokenState {
    pub tokens: Seq<Seq<char>>,
    pub current: Seq<char>,
    pub quoted: bool,
    pub mode: TokenMode,
}

/// What an escape sequence in double quotes stands for. Sequences other than
/// those for quotes, backslashes, newlines and tabs are kept as they are.
pub open spec fn escape_text(c: char) -> Seq<char> {
    if c == '"' || c == '\\' {
        seq![c]
    } else if c == 'n' {
        seq!['\n']
    } else if c == 't' {
        seq!['\t']
    } else {
        seq!['\\', c]
    }
}

/// The state behind one character.
pub open spec fn token_step(t: TokenState, c: char) -> TokenState {
    match t.mode {
        TokenMode::Double => if c == '\\' {
            TokenState { mode: TokenMode::Escape, ..t }
        } else if c == '"' {
            TokenState { mode: TokenMode::Plain, ..t }
        } else {
            TokenState { current: t.current.push(c), ..t }
        },
        TokenMode::Escape => TokenState {
            current: t.current + escape_text(c),
            mode: TokenMode::Double,
            ..t
        },
        TokenMode::Single => if c == '\'' {
            TokenState { mode: TokenMode::Plain, ..t }
        } else {
            TokenState { current: t.current.push(c), ..t }
        },
        TokenMode::Plain => if c == '"' {
            TokenState { mode: TokenMode::Double, quoted: true, ..t }
        } else if c == '\'' {
            TokenState { mode: TokenMode::Single, quoted: true, ..t }
        } else if strings::char_whitespace(c) {
            if t.current.len() > 0 || t.quoted {
                TokenState {
                    tokens: t.tokens.push(t.current),
                    current: Seq::empty(),
                    quoted: false,
                    mode: TokenMode::Plain,
                }
            } else {
                t
            }
        } else {
            TokenState { current: t.current.push(c), ..t }
        },
    }
}

/// The state before character `i` of a line.
pub open spec fn token_at(line: Seq<char>, i: int) -> TokenState
    decreases i,
{
    if i <= 0 {
        TokenState {
            tokens: Seq::empty(),
            current: Seq::empty(),
            quoted: false,
            mode: TokenMode::Plain,
        }
    } else {
        token_step(token_at(line, i - 1), line[i - 1])
    }
}

/// The tokens of a line: words separated by whitespace outside quotes. A
/// backslash that nothing follows stands for itself, and an unclosed quote
/// runs to the end of the line.
pub open spec fn tokens_of(line: Seq<char>) -> Seq<Seq<char>> {
    let t = token_at(line, line.len() as int);
    let last = if t.mode == TokenMode::Escape {
        t.current.push('\\')
    } else {
        t.current
    };
    if last.len() > 0 || t.quoted {
        t.tokens.push(last)
    } else {
        t.tokens
    }
}

/// Splits a line into tokens: words, and quoted strings with their escapes.
pub fn tokenize(line: &str) -> (r: Vec<String>)
    ensures
        strings::strings_view(r@) == tokens_of(line@),
{
    tokenize_chars(&chars_of(line))
}

/// Splits a line into tokens.
fn tokenize_chars(line: &Vec<char>) -> (r: Vec<String>)
    ensures
        strings::strings_view(r@) == tokens_of(line@),
{
    let mut tokens: Vec<String> = Vec::new();
    let mut current: Vec<char> = Vec::new();
    let mut quoted = false;
    let mut mode = TokenMode::Plain;
    let mut i: usize = 0;
    proof {
        assert(strings::strings_view(tokens@) =~= Seq::<Seq<char>>::empty());
    }
    while i < line.len()
        invariant
            i <= line@.len(),
            (TokenState {
                tokens: strings::strings_view(tokens@),
                current: current@,
                quoted,
                mode,
            }) == token_at(line@, i as int),
        decreases line@.len() - i,
    {
        let c = line[i];
        let ghost t = token_at(line@, i as int);
        let ghost tokens_before = tokens@;
        match mode {
            TokenMode::Double => {
                if c == '\\' {
                    mode = TokenMode::Escape;
                } else if c == '"' {
                    mode = TokenMode::Plain;
                } else {
                    current.push(c);
                }
            },
            TokenMode::Escape => {
                if c == '"' || c == '\\' {
                    current.push(c);
                } else if c == 'n' {
                    current.push('\n');
                } else if c == 't' {
                    current.push('\t');
                } else {
                    current.push('\\');
                    current.push(c);
                }
                mode = TokenMode::Double;
                proof {
                    assert(current@ =~= t.current + escape_text(c));
                }
            },
            TokenMode::Single => {
                if c == '\'' {
                    mode = TokenMode::Plain;
                } else {
                    current.push(c);
                }
            },
            TokenMode::Plain => {
                if c == '"' {
                    mode = TokenMode::Double;
                    quoted = true;
                } else if c == '\'' {
                    mode = TokenMode::Single;
                    quoted = true;
                } else if c.is_whitespace() {
                    if current.len() > 0 || quoted {
                        let token = string_of(&current, 0, current.len());
                        tokens.push(token);
                        proof {
                            assert(token@ =~= t.current);
                            assert(strings::strings_view(tokens@) =~= strings::strings_view(
                                tokens_before,
                            ).push(token@));
                        }
                        current = Vec::new();
                        quoted = false;
                    }
                } else {
                    current.push(c);
                }
            },
        }
        i += 1;
        proof {
            assert((TokenState {
                tokens: strings::strings_view(tokens@),
                current: current@,
                quoted,
                mode,
            }) =~= token_step(t, c));
        }
    }
    match mode {
        TokenMode::Escape => {
            current.push('\\');
        },
        _ => {},
    }
    if current.len() > 0 || quoted {
        let token = string_of(&current, 0, current.len());
        let ghost tokens_before = tokens@;
        tokens.push(token);
        proof {
            assert(token@ =~= current@);
            assert(strings::strings_view(tokens@) =~= strings::strings_view(tokens_before).push(
                token@,
            ));
        }
    }
    tokens
}

// ---------------------------------------------------------------------------
// Flags
// ---------------------------------------------------------------------------

/// The arguments of an operation, sorted.
#[verifier::ext_equal]
pub struct ArgsView {
    pub regex: bool,
    pub case_insensitive: bool,
    pub multiline: bool,
    pub count: ReplaceCount,
    pub glob: Option<Seq<char>>,
    pub mode: Option<Seq<char>>,
    pub prefix: Option<Seq<char>>,
    pub suffix: Option<Seq<char>>,
    pub amount: Option<Seq<char>>,
    pub use_tabs: bool,
    pub positional: Seq<Seq<char>>,
}

/// No arguments.
pub open spec fn no_args() -> ArgsView {
    ArgsView {
        regex: false,
        case_insensitive: false,
        multiline: false,
        count: ReplaceCount::All,
        glob: None,
        mode: None,
        prefix: None,
        suffix: None,
        amount: None,
        use_tabs: false,
        positional: Seq::empty(),
    }
}

/// A flag that takes a value.
pub open spec fn takes_value(flag: Seq<char>) -> bool {
    flag == "--max-replacements"@ || flag == "--glob"@ || flag == "--mode"@ || flag == "--prefix"@
        || flag == "--suffix"@ || flag == "--amount"@
}

/// The arguments with a valued flag added, or what is wrong with the value.
pub open spec fn with_value(a: ArgsView, flag: Seq<char>, value: Seq<char>) -> Result<
    ArgsView,
    Seq<char>,
> {
    if flag == "--max-replacements"@ {
        match strings::usize_value(value) {
            None => Err("--max-replacements: '"@ + value + "' is not a valid number"@),
            Some(n) => if n == 0 {
                Err("--max-replacements must be at least 1"@)
            } else {
                Ok(ArgsView { count: ReplaceCount::Max(n), ..a })
            },
        }
    } else if flag == "--glob"@ {
        Ok(ArgsView { glob: Some(value), ..a })
    } else if flag == "--mode"@ {
        Ok(ArgsView { mode: Some(value), ..a })
    } else if flag == "--prefix"@ {
        Ok(ArgsView { prefix: Some(value), ..a })
    } else if flag == "--suffix"@ {
        Ok(ArgsView { suffix: Some(value), ..a })
    } else {
        Ok(ArgsView { amount: Some(value), ..a })
    }
}

/// The arguments with a flag that takes no value, or a positional argument,
/// added; or what is wrong with it.
pub open spec fn with_flag(a: ArgsView, flag: Seq<char>) -> Result<ArgsView, Seq<char>> {
    if flag == "-e"@ || flag == "--regex"@ {
        Ok(ArgsView { regex: true, ..a })
    } else if flag == "-i"@ || flag == "--case-insensitive"@ {
        Ok(ArgsView { case_insensitive: true, ..a })
    } else if flag == "-U"@ || flag == "--multiline"@ {
        Ok(ArgsView { multiline: true, ..a })
    } else if flag == "--first"@ {
        Ok(ArgsView { count: ReplaceCount::FirstPerLine, ..a })
    } else if flag == "--first-in-file"@ {
        Ok(ArgsView { count: ReplaceCount::FirstInFile, ..a })
    } else if flag == "--use-tabs"@ {
        Ok(ArgsView { use_tabs: true, ..a })
    } else if flag.len() > 0 && flag[0] == '-' {
        Err("unknown flag '"@ + flag + "'"@)
    } else {
        Ok(ArgsView { positional: a.positional.push(flag), ..a })
    }
}

/// The arguments among the tokens from `i` on, added to `a`; or what is wrong with the
/// first bad one.
pub open spec fn args_from(tokens: Seq<Seq<char>>, i: int, a: ArgsView) -> Result<
    ArgsView,
    Seq<char>,
>
    decreases tokens.len() - i,
{
    if i < 0 || i >= tokens.len() {
        Ok(a)
    } else if takes_value(tokens[i]) {
        if i + 1 >= tokens.len() {
            Err(tokens[i] + " requires a value"@)
        } else {
            match with_value(a, tokens[i], tokens[i + 1]) {
                Ok(b) => args_from(tokens, i + 2, b),
                Err(e) => Err(e),
            }
        }
    } else {
        match with_flag(a, tokens[i]) {
            Ok(b) => args_from(tokens, i + 1, b),
            Err(e) => Err(e),
        }
    }
}

/// The arguments of an operation, sorted.
struct Args {
    regex: bool,
    case_insensitive: bool,
    multiline: bool,
    count: ReplaceCount,
    glob: Option<String>,
    mode: Option<String>,
    prefix: Option<String>,
    suffix: Option<String>,
    amount: Option<String>,
    use_tabs: bool,
    positional: Vec<String>,
}

impl View for Args {
    type V = ArgsView;

    closed spec fn view(&self) -> ArgsView {
        ArgsView {
            regex: self.regex,
            case_insensitive: self.case_insensitive,
            multiline: self.multiline,
            count: self.count,
            glob: error::opt_view(self.glob),
            mode: error::opt_view(self.mode),
            prefix: error::opt_view(self.prefix),
            suffix: error::opt_view(self.suffix),
            amount: error::opt_view(self.amount),
            use_tabs: self.use_tabs,
            positional: strings::strings_view(self.positional@),
        }
    }
}

/// Whether a flag takes a value.
fn flag_takes_value(flag: &str) -> (b: bool)
    ensures
        b == takes_value(flag@),
{
    str_eq(flag, "--max-replacements") || str_eq(flag, "--glob") || str_eq(flag, "--mode")
        || str_eq(flag, "--prefix") || str_eq(flag, "--suffix") || str_eq(flag, "--amount")
}

/// Adds a flag with its value.
fn add_value(args: Args, flag: &str, value: &str) -> (r: Result<Args, String>)
    requires
        takes_value(flag@),
    ensures
        match r {
            Ok(b) => with_value(args@, flag@, value@) == Ok::<ArgsView, Seq<char>>(b@),
            Err(e) => with_value(args@, flag@, value@) == Err::<ArgsView, Seq<char>>(e@),
        },
{
    let mut args = args;
    if str_eq(flag, "--max-replacements") {
        match parse_usize(value) {
            None => {
                let mut e = owned("--max-replacements: '");
                e.append(value);
                e.append("' is not a valid number");
                Err(e)
            },
            Some(n) => {
                if n == 0 {
                    Err(owned("--max-replacements must be at least 1"))
                } else {
                    args.count = ReplaceCount::Max(n);
                    Ok(args)
                }
            },
        }
    } else if str_eq(flag, "--glob") {
        args.glob = Some(owned(value));
        Ok(args)
    } else if str_eq(flag, "--mode") {
        args.mode = Some(owned(value));
        Ok(args)
    } else if str_eq(flag, "--prefix") {
        args.prefix = Some(owned(value));
        Ok(args)
    } else if str_eq(flag, "--suffix") {
        args.suffix = Some(owned(value));
        Ok(args)
    } else {
        args.amount = Some(owned(value));
        Ok(args)
    }
}

/// Whether a text starts with a hyphen.
fn starts_with_hyphen(s: &str) -> (b: bool)
    ensures
        b == (s@.len() > 0 && s@[0] == '-'),
{
    let chars = chars_of(s);
    chars.len() > 0 && chars[0] == '-'
}

/// Adds a flag without a value, or a positional argument.
fn add_flag(args: Args, flag: &str) -> (r: Result<Args, String>)
    ensures
        match r {
            Ok(b) => with_flag(args@, flag@) == Ok::<ArgsView, Seq<char>>(b@),
            Err(e) => with_flag(args@, flag@) == Err::<ArgsView, Seq<char>>(e@),
        },
{
    let mut args = args;
    if str_eq(flag, "-e") || str_eq(flag, "--regex") {
        args.regex = true;
        Ok(args)
    } else if str_eq(flag, "-i") || str_eq(flag, "--case-insensitive") {
        args.case_insensitive = true;
        Ok(args)
    } else if str_eq(flag, "-U") || str_eq(flag, "--multiline") {
        args.multiline = true;
        Ok(args)
    } else if str_eq(flag, "--first") {
        args.count = ReplaceCount::FirstPerLine;
        Ok(args)
    } else if str_eq(flag, "--first-in-file") {
        args.count = ReplaceCount::FirstInFile;
        Ok(args)
    } else if str_eq(flag, "--use-tabs") {
        args.use_tabs = true;
        Ok(args)
    } else if starts_with_hyphen(flag) {
        let mut e = owned("unknown flag '");
        e.append(flag);
        e.append("'");
        Err(e)
    } else {
        let ghost before = args.positional@;
        args.positional.push(owned(flag));
        proof {
            assert(strings::strings_view(args.positional@) =~= strings::strings_view(before).push(
                flag@,
            ));
        }
        Ok(args)
    }
}

/// Sorts the arguments of an operation; the first token is its name.
fn parse_args(tokens: &Vec<String>) -> (r: Result<Args, String>)
    ensures
        match r {
            Ok(a) => args_from(strings::strings_view(tokens@), 1, no_args()) == Ok::<
                ArgsView,
                Seq<char>,
            >(a@),
            Err(e) => args_from(strings::strings_view(tokens@), 1, no_args()) == Err::<
                ArgsView,
                Seq<char>,
            >(e@),
        },
{
    let ghost ts = strings::strings_view(tokens@);
    let mut args = Args {
        regex: false,
        case_insensitive: false,
        multiline: false,
        count: ReplaceCount::All,
        glob: None,
        mode: None,
        prefix: None,
        suffix: None,
        amount: None,
        use_tabs: false,
        positional: Vec::new(),
    };
    proof {
        assert(args@ =~= no_args());
    }
    let mut i: usize = 1;
    while i < tokens.len()
        invariant
            ts == strings::strings_view(tokens@),
            1 <= i,
            args_from(ts, 1, no_args()) == args_from(ts, i as int, args@),
        decreases tokens@.len() - i,
    {
        let flag = tokens[i].as_str();
        proof {
            assert(ts[i as int] == flag@);
        }
        if flag_takes_value(flag) {
            if i + 1 >= tokens.len() {
                let mut e = owned(flag);
                e.append(" requires a value");
                return Err(e);
            }
            let value = tokens[i + 1].as_str();
            proof {
                assert(ts[i + 1] == value@);
            }
            match add_value(args, flag, value) {
                Ok(b) => {
                    args = b;
                },
                Err(e) => {
                    return Err(e);
                },
            }
            i += 1;
        } else {
            match add_flag(args, flag) {
                Ok(b) => {
                    args = b;
                },
                Err(e) => {
                    return Err(e);
                },
            }
        }
        i += 1;
    }
    Ok(args)
}

// ---------------------------------------------------------------------------
// Operations
// ---------------------------------------------------------------------------

/// What is said of an operation with too few positional arguments.
pub open spec fn too_few_arguments(name: Seq<char>, expected: nat, got: nat) -> Seq<char> {
    "'"@ + name + "' requires "@ + strings::decimal(expected) + " argument(s), got "@
        + strings::decimal(got)
}

/// The combination of flags that an operation does not support, if any.
pub open spec fn flag_conflict(name: Seq<char>, a: ArgsView) -> Option<Seq<char>> {
    if a.multiline && name != "replace"@ && name != "delete"@ {
        Some(
            "--multiline is not supported for '"@ + name + "' (replace and delete only)"@,
        )
    } else if a.count != ReplaceCount::All && name != "replace"@ {
        Some(
            "--first/--first-in-file/--max-replacements are not supported for '"@ + name
                + "' (replace only)"@,
        )
    } else if a.multiline && a.count == ReplaceCount::FirstPerLine {
        Some(
            "--first cannot be combined with --multiline (use --first-in-file or --max-replacements)"@,
        )
    } else {
        None
    }
}

/// How many positional arguments an operation takes (`None`: no such operation).
pub open spec fn arity(name: Seq<char>) -> Option<nat> {
    if name == "replace"@ || name == "insert_after"@ || name == "insert_before"@ || name
        == "replace_line"@ {
        Some(2)
    } else if name == "delete"@ || name == "transform"@ || name == "surround"@ || name == "indent"@
        || name == "dedent"@ {
        Some(1)
    } else {
        None
    }
}

/// The amount that a flag gives, or what is wrong with it.
pub open spec fn amount_of(a: ArgsView) -> Result<usize, Seq<char>> {
    match a.amount {
        None => Ok(DEFAULT_INDENT_AMOUNT),
        Some(s) => match strings::usize_value(s) {
            Some(n) => Ok(n),
            None => Err("invalid --amount value: '"@ + s + "'"@),
        },
    }
}

/// What an operation does, or what is missing or wrong in its arguments.
pub open spec fn action_of(name: Seq<char>, a: ArgsView) -> Result<Action, Seq<char>> {
    if name == "replace"@ {
        Ok(
            Action::Replace {
                replace: a.positional[1],
                multiline: a.multiline,
                count: a.count,
            },
        )
    } else if name == "delete"@ {
        Ok(Action::Delete { multiline: a.multiline })
    } else if name == "insert_after"@ {
        Ok(Action::InsertAfter { content: a.positional[1] })
    } else if name == "insert_before"@ {
        Ok(Action::InsertBefore { content: a.positional[1] })
    } else if name == "replace_line"@ {
        Ok(Action::ReplaceLine { content: a.positional[1] })
    } else if name == "transform"@ {
        match a.mode {
            None => Err("transform requires --mode <mode>"@),
            Some(s) => match operation::mode_of_name(s) {
                Some(mode) => Ok(Action::Transform { mode }),
                None => Err(operation::unknown_mode_message(s)),
            },
        }
    } else if name == "surround"@ {
        match (a.prefix, a.suffix) {
            (None, _) => Err("surround requires --prefix <value>"@),
            (Some(_), None) => Err("surround requires --suffix <value>"@),
            (Some(prefix), Some(suffix)) => Ok(Action::Surround { prefix, suffix }),
        }
    } else if name == "indent"@ {
        match amount_of(a) {
            Ok(amount) => Ok(Action::Indent { amount, use_tabs: a.use_tabs }),
            Err(e) => Err(e),
        }
    } else {
        match amount_of(a) {
            Ok(amount) => Ok(Action::Dedent { amount, use_tabs: a.use_tabs }),
            Err(e) => Err(e),
        }
    }
}

/// The operation that a name and its arguments make, or what is wrong with them.
pub open spec fn op_of(name: Seq<char>, a: ArgsView) -> Result<OpView, Seq<char>> {
    match flag_conflict(name, a) {
        Some(e) => Err(e),
        None => match arity(name) {
            None => Err(
                "unknown operation '"@ + name
                    + "'. Valid operations: replace, delete, insert_after, insert_before, replace_line, transform, surround, indent, dedent"@,
            ),
            Some(n) => if a.positional.len() < n {
                Err(too_few_arguments(name, n, a.positional.len()))
            } else {
                match action_of(name, a) {
                    Err(e) => Err(e),
                    Ok(action) => Ok(
                        OpView {
                            find: a.positional[0],
                            regex: a.regex,
                            case_insensitive: a.case_insensitive,
                            action,
                        },
                    ),
                }
            },
        },
    }
}

/// The error of a script line.
pub open spec fn script_line_error(line_num: int, detail: Seq<char>) -> error::ErrorView {
    error::invalid_request_error(
        "Script parse error at line "@ + strings::decimal(line_num as nat) + ": "@ + detail,
        "Check the syntax at line "@ + strings::decimal(line_num as nat)
            + " of your .rip script file."@,
    )
}

/// What a script line, stripped of its comment, says; or what is wrong with it.
pub open spec fn line_op(line: Seq<char>) -> Result<ScriptOpView, Seq<char>> {
    let tokens = tokens_of(line);
    if tokens.len() == 0 {
        Err("empty operation line"@)
    } else {
        match args_from(tokens, 1, no_args()) {
            Err(e) => Err(e),
            Ok(a) => match op_of(transform::str_lower(tokens[0]), a) {
                Err(e) => Err(e),
                Ok(op) => Ok(ScriptOpView { op, glob: a.glob }),
            },
        }
    }
}

/// Whether a line holds no operation: it is blank or a comment.
pub open spec fn is_blank_or_comment(line: Seq<char>) -> bool {
    let t = trim(line);
    t.len() == 0 || t[0] == '#'
}

/// The operations of the first `n` lines, or the error of the first bad one.
pub open spec fn script_ops(ls: Seq<Seq<char>>, n: int) -> Result<Seq<ScriptOpView>, error::ErrorView>
    decreases n,
{
    if n <= 0 {
        Ok(Seq::empty())
    } else {
        match script_ops(ls, n - 1) {
            Err(e) => Err(e),
            Ok(ops) => if is_blank_or_comment(ls[n - 1]) {
                Ok(ops)
            } else {
                match line_op(without_comment(trim(ls[n - 1]), 0)) {
                    Ok(op) => Ok(ops.push(op)),
                    Err(detail) => Err(script_line_error(n, detail)),
                }
            },
        }
    }
}

/// The error of a script line.
fn script_error(line_num: usize, detail: &str) -> (e: RipsedError)
    ensures
        e@ == script_line_error(line_num as int, detail@),
{
    let number = to_decimal(line_num);
    let mut message = owned("Script parse error at line ");
    message.append(number.as_str());
    message.append(": ");
    message.append(detail);
    let mut hint = owned("Check the syntax at line ");
    hint.append(number.as_str());
    hint.append(" of your .rip script file.");
    RipsedError::invalid_request(message.as_str(), hint.as_str())
}

/// The combination of flags that an operation does not support, if any.
fn find_conflict(name: &str, args: &Args) -> (r: Option<String>)
    ensures
        error::opt_view(r) == flag_conflict(name@, args@),
{
    let is_replace = str_eq(name, "replace");
    let counted = match args.count {
        ReplaceCount::All => false,
        _ => true,
    };
    let per_line = match args.count {
        ReplaceCount::FirstPerLine => true,
        _ => false,
    };
    if args.multiline && !is_replace && !str_eq(name, "delete") {
        let mut e = owned("--multiline is not supported for '");
        e.append(name);
        e.append("' (replace and delete only)");
        Some(e)
    } else if counted && !is_replace {
        let mut e = owned("--first/--first-in-file/--max-replacements are not supported for '");
        e.append(name);
        e.append("' (replace only)");
        Some(e)
    } else if args.multiline && per_line {
        Some(
            owned(
                "--first cannot be combined with --multiline (use --first-in-file or --max-replacements)",
            ),
        )
    } else {
        None
    }
}

/// How many positional arguments an operation takes.
fn find_arity(name: &str) -> (r: Option<usize>)
    ensures
        arity(name@) == match r {
            Some(n) => Some(n as nat),
            None => None,
        },
{
    if str_eq(name, "replace") || str_eq(name, "insert_after") || str_eq(name, "insert_before")
        || str_eq(name, "replace_line") {
        Some(2)
    } else if str_eq(name, "delete") || str_eq(name, "transform") || str_eq(name, "surround")
        || str_eq(name, "indent") || str_eq(name, "dedent") {
        Some(1)
    } else {
        None
    }
}

/// Checks that there are enough positional arguments.
fn require_positional_count(positional: &Vec<String>, expected: usize, name: &str) -> (r: Result<
    (),
    String,
>)
    ensures
        match r {
            Ok(()) => positional@.len() >= expected,
            Err(e) => positional@.len() < expected && e@ == too_few_arguments(
                name@,
                expected as nat,
                positional@.len(),
            ),
        },
{
    if positional.len() < expected {
        let mut e = owned("'");
        e.append(name);
        e.append("' requires ");
        e.append(to_decimal(expected).as_str());
        e.append(" argument(s), got ");
        e.append(to_decimal(positional.len()).as_str());
        Err(e)
    } else {
        Ok(())
    }
}

/// The amount of an indentation.
fn parse_amount(args: &Args) -> (r: Result<usize, String>)
    ensures
        amount_of(args@) == match r {
            Ok(n) => Ok::<usize, Seq<char>>(n),
            Err(e) => Err::<usize, Seq<char>>(e@),
        },
{
    match &args.amount {
        None => Ok(DEFAULT_INDENT_AMOUNT),
        Some(s) => match parse_usize(s.as_str()) {
            Some(n) => Ok(n),
            None => {
                let mut e = owned("invalid --amount value: '");
                e.append(s.as_str());
                e.append("'");
                Err(e)
            },
        },
    }
}

/// Builds an operation from its name and its arguments.
#[verifier::rlimit(40)]
fn build_op(name: &str, args: &Args) -> (r: Result<Op, String>)
    ensures
        match r {
            Ok(op) => op_of(name@, args@) == Ok::<OpView, Seq<char>>(op@),
            Err(e) => op_of(name@, args@) == Err::<OpView, Seq<char>>(e@),
        },
{
    match find_conflict(name, args) {
        Some(e) => {
            return Err(e);
        },
        None => {},
    }
    let expected = match find_arity(name) {
        Some(n) => n,
        None => {
            let mut e = owned("unknown operation '");
            e.append(name);
            e.append(
                "'. Valid operations: replace, delete, insert_after, insert_before, replace_line, transform, surround, indent, dedent",
            );
            return Err(e);
        },
    };
    match require_positional_count(&args.positional, expected, name) {
        Err(e) => {
            return Err(e);
        },
        Ok(()) => {},
    }
    let find = args.positional[0].clone();
    let regex = args.regex;
    let case_insensitive = args.case_insensitive;
    let multiline = args.multiline;
    if str_eq(name, "replace") {
        return Ok(
            Op::Replace {
                find,
                replace: args.positional[1].clone(),
                regex,
                case_insensitive,
                multiline,
                count: args.count,
            },
        );
    }
    if str_eq(name, "delete") {
        return Ok(Op::Delete { find, regex, case_insensitive, multiline });
    }
    if str_eq(name, "insert_after") {
        return Ok(
            Op::InsertAfter { find, content: args.positional[1].clone(), regex, case_insensitive },
        );
    }
    if str_eq(name, "insert_before") {
        return Ok(
            Op::InsertBefore { find, content: args.positional[1].clone(), regex, case_insensitive },
        );
    }
    if str_eq(name, "replace_line") {
        return Ok(
            Op::ReplaceLine { find, content: args.positional[1].clone(), regex, case_insensitive },
        );
    }
    if str_eq(name, "transform") {
        return match &args.mode {
            None => Err(owned("transform requires --mode <mode>")),
            Some(s) => match TransformMode::from_name(s.as_str()) {
                Ok(mode) => Ok(Op::Transform { find, mode, regex, case_insensitive }),
                Err(e) => Err(e),
            },
        };
    }
    if str_eq(name, "surround") {
        let prefix = match &args.prefix {
            None => {
                return Err(owned("surround requires --prefix <value>"));
            },
            Some(p) => p.clone(),
        };
        let suffix = match &args.suffix {
            None => {
                return Err(owned("surround requires --suffix <value>"));
            },
            Some(s) => s.clone(),
        };
        return Ok(Op::Surround { find, prefix, suffix, regex, case_insensitive });
    }
    let amount = match parse_amount(args) {
        Ok(n) => n,
        Err(e) => {
            return Err(e);
        },
    };
    let use_tabs = args.use_tabs;
    if str_eq(name, "indent") {
        Ok(Op::Indent { find, amount, use_tabs, regex, case_insensitive })
    } else {
        Ok(Op::Dedent { find, amount, use_tabs, regex, case_insensitive })
    }
}

/// Parses one script line, stripped of its comment.
pub fn parse_script_line(line: &str, line_num: usize) -> (r: Result<ScriptOp, RipsedError>)
    ensures
        match r {
            Ok(op) => line_op(line@) == Ok::<ScriptOpView, Seq<char>>(op@),
            Err(e) => line_op(line@) matches Err(detail) && e@ == script_line_error(
                line_num as int,
                detail,
            ),
        },
{
    let tokens = tokenize(line);
    if tokens.len() == 0 {
        return Err(script_error(line_num, "empty operation line"));
    }
    let name = tokens[0].as_str().to_lowercase();
    proof {
        assert(tokens_of(line@)[0] == tokens@[0]@);
    }
    let args = match parse_args(&tokens) {
        Ok(a) => a,
        Err(e) => {
            return Err(script_error(line_num, e.as_str()));
        },
    };
    match build_op(name.as_str(), &args) {
        Ok(op) => Ok(ScriptOp { op, glob: args.glob }),
        Err(e) => Err(script_error(line_num, e.as_str())),
    }
}

/// Parses a script from its text.
///
/// Each line that is neither blank nor a comment is an operation. Errors name
/// the line.
pub fn parse_script(input: &str) -> (r: Result<Script, RipsedError>)
    ensures
        match r {
            Ok(script) => script_ops(
                lines::lines(input@),
                lines::lines(input@).len() as int,
            ) == Ok::<Seq<ScriptOpView>, error::ErrorView>(script_view(script.operations@)),
            Err(e) => script_ops(lines::lines(input@), lines::lines(input@).len() as int) == Err::<
                Seq<ScriptOpView>,
                error::ErrorView,
            >(e@),
        },
{
    let all = split_lines(input);
    let ghost ls = lines::lines(input@);
    let mut operations: Vec<ScriptOp> = Vec::new();
    let mut i: usize = 0;
    proof {
        assert(script_view(operations@) =~= Seq::<ScriptOpView>::empty());
    }
    while i < all.len()
        invariant
            ls == lines::lines(input@),
            strings::strs_view(all@) == ls,
            i <= all@.len(),
            script_ops(ls, i as int) == Ok::<Seq<ScriptOpView>, error::ErrorView>(
                script_view(operations@),
            ),
        decreases all@.len() - i,
    {
        let line_num: usize = i + 1;
        proof {
            assert(ls[i as int] == all@[i as int]@);
        }
        let trimmed = trimmed_chars(all[i]);
        if trimmed.len() == 0 || trimmed[0] == '#' {
            i += 1;
            continue;
        }
        let line = string_of(&trimmed, 0, trimmed.len());
        proof {
            assert(line@ =~= trimmed@);
        }
        let effective = strip_inline_comment(line.as_str());
        match parse_script_line(effective.as_str(), line_num) {
            Ok(op) => {
                let ghost before = operations@;
                operations.push(op);
                proof {
                    assert(script_view(operations@) =~= script_view(before).push(op@));
                }
            },
            Err(e) => {
                proof {
                    lemma_script_error_stays(ls, i + 1, ls.len() as int);
                }
                return Err(e);
            },
        }
        i += 1;
    }
    proof {
        assert(ls.len() == all@.len());
    }
    Ok(Script { operations })
}

/// The first error is the error of the whole script.
pub proof fn lemma_script_error_stays(ls: Seq<Seq<char>>, i: int, n: int)
    requires
        0 <= i <= n,
        script_ops(ls, i) is Err,
    ensures
        script_ops(ls, n) == script_ops(ls, i),
    decreases n - i,
{
    if i < n {
        lemma_script_error_stays(ls, i, n - 1);
    }
}

} // verus!
