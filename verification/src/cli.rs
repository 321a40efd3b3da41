//! Command-line arguments: values, and what they ask for.
use vstd::prelude::*;

use crate::config::Config;
use crate::error;
use crate::matcher;
use crate::matcher::{find_str, Matcher};
use crate::offsets;
use crate::offsets::slice_str;
use crate::operation;
use crate::operation::{
    choose_range, Action, LineRange, Op, OpOptions, OpView, OptionsView, PatternRange, RangeSpec,
    RangeView, ReplaceCount, TransformMode,
};
use crate::rex;
use crate::rex::error_text;
use crate::strings;
use crate::strings::{chars_of, owned, parse_usize, string_of, to_decimal};

verus! {

/// What was asked for on the command line.
#[derive(Debug, Clone, PartialEq, Eq)]
pub struct Cli {
    /// Pattern to search for.
    pub find: Option<String>,
    /// Replacement string.
    pub replace: Option<String>,
    /// Treat the pattern as a regular expression.
    pub regex: bool,
    /// Match across line boundaries.
    pub multiline: bool,
    /// Replace only the first occurrence on each matching line.
    pub first: bool,
    /// Replace only the first occurrence in each file.
    pub first_in_file: bool,
    /// Replace at most this many occurrences per file.
    pub max_replacements: Option<usize>,
    /// Delete matching lines.
    pub delete: bool,
    /// Read from stdin, write to stdout.
    pub pipe: bool,
    /// Preview changes without writing.
    pub dry_run: bool,
    /// Create backup files before modifying.
    pub backup: bool,
    /// Do not record undo entries.
    pub no_undo: bool,
    /// How many files are processed at once.
    pub threads: Option<usize>,
    /// Only process files matching this glob.
    pub glob: Option<String>,
    /// Skip files matching this glob.
    pub ignore_pattern: Option<String>,
    /// Take hidden files in.
    pub hidden: bool,
    /// Do not respect ignore files.
    pub no_gitignore: bool,
    /// Read a request instead of arguments.
    pub json: bool,
    /// The request as an argument.
    pub json_input: Option<String>,
    /// Never take stdin for a request.
    pub no_json: bool,
    /// Print results as they come, one per line.
    pub jsonl: bool,
    /// Insert text after matching lines.
    pub after: Option<String>,
    /// Insert text before matching lines.
    pub before: Option<String>,
    /// Replace matching lines.
    pub replace_line: Option<String>,
    /// Only operate on these lines.
    pub line_range: Option<LineRange>,
    /// Only operate between lines that match.
    pub range: Option<PatternRange>,
    /// Maximum directory depth.
    pub max_depth: Option<usize>,
    /// Match letters in either case.
    pub case_insensitive: bool,
    /// Print the number of changes only.
    pub count: bool,
    /// Print errors only.
    pub quiet: bool,
    /// Ask before each file.
    pub confirm: bool,
    /// Undo this many operations.
    pub undo: Option<usize>,
    /// Show the undo log.
    pub undo_list: bool,
    /// Follow symbolic links.
    pub follow: bool,
    /// Path of the settings file.
    pub config: Option<String>,
    /// Transform matched text.
    pub transform: Option<TransformMode>,
    /// Surround matching lines with a prefix and a suffix.
    pub surround: Option<Vec<String>>,
    /// Indent matching lines.
    pub indent: Option<usize>,
    /// Dedent matching lines.
    pub dedent: Option<usize>,
    /// Run a script.
    pub script: Option<String>,
}

impl Default for Cli {
    /// No arguments.
    fn default() -> (c: Cli)
        ensures
            c == (Cli {
                find: None,
                replace: None,
                regex: false,
                multiline: false,
                first: false,
                first_in_file: false,
                max_replacements: None,
                delete: false,
                pipe: false,
                dry_run: false,
                backup: false,
                no_undo: false,
                threads: None,
                glob: None,
                ignore_pattern: None,
                hidden: false,
                no_gitignore: false,
                json: false,
                json_input: None,
                no_json: false,
                jsonl: false,
                after: None,
                before: None,
                replace_line: None,
                line_range: None,
                range: None,
                max_depth: None,
                case_insensitive: false,
                count: false,
                quiet: false,
                confirm: false,
                undo: None,
                undo_list: false,
                follow: false,
                config: None,
                transform: None,
                surround: None,
                indent: None,
                dedent: None,
                script: None,
            }),
    {
        Cli {
            find: None,
            replace: None,
            regex: false,
            multiline: false,
            first: false,
            first_in_file: false,
            max_replacements: None,
            delete: false,
            pipe: false,
            dry_run: false,
            backup: false,
            no_undo: false,
            threads: None,
            glob: None,
            ignore_pattern: None,
            hidden: false,
            no_gitignore: false,
            json: false,
            json_input: None,
            no_json: false,
            jsonl: false,
            after: None,
            before: None,
            replace_line: None,
            line_range: None,
            range: None,
            max_depth: None,
            case_insensitive: false,
            count: false,
            quiet: false,
            confirm: false,
            undo: None,
            undo_list: false,
            follow: false,
            config: None,
            transform: None,
            surround: None,
            indent: None,
            dedent: None,
            script: None,
        }
    }
}

// ---------------------------------------------------------------------------
// The operation
// ---------------------------------------------------------------------------

/// How many occurrences the flags ask to replace.
pub open spec fn count_of_cli(cli: Cli) -> ReplaceCount {
    if cli.first {
        ReplaceCount::FirstPerLine
    } else if cli.first_in_file {
        ReplaceCount::FirstInFile
    } else {
        match cli.max_replacements {
            Some(n) => ReplaceCount::Max(n),
            None => ReplaceCount::All,
        }
    }
}

/// Whether the surround flag is what decides on the operation.
pub open spec fn surround_is_used(cli: Cli) -> bool {
    !cli.delete && cli.after is None && cli.before is None && cli.replace_line is None
        && cli.transform is None && cli.surround is Some
}

/// What the flags ask to do; the first that is given of delete, after, before,
/// replace-line, transform, surround, indent and dedent decides, and without
/// any of them it is a replace.
pub open spec fn action_of_cli(cli: Cli) -> Action {
    if cli.delete {
        Action::Delete { multiline: cli.multiline }
    } else if cli.after is Some {
        Action::InsertAfter { content: cli.after->0@ }
    } else if cli.before is Some {
        Action::InsertBefore { content: cli.before->0@ }
    } else if cli.replace_line is Some {
        Action::ReplaceLine { content: cli.replace_line->0@ }
    } else if cli.transform is Some {
        Action::Transform { mode: cli.transform->0 }
    } else if cli.surround is Some {
        Action::Surround { prefix: cli.surround->0@[0]@, suffix: cli.surround->0@[1]@ }
    } else if cli.indent is Some {
        Action::Indent { amount: cli.indent->0, use_tabs: false }
    } else if cli.dedent is Some {
        Action::Dedent { amount: cli.dedent->0, use_tabs: false }
    } else {
        Action::Replace {
            replace: match cli.replace {
                Some(r) => r@,
                None => Seq::empty(),
            },
            multiline: cli.multiline,
            count: count_of_cli(cli),
        }
    }
}

/// The operation that the flags ask for.
pub open spec fn op_of_cli(cli: Cli, find: Seq<char>) -> OpView {
    OpView {
        find,
        regex: cli.regex,
        case_insensitive: cli.case_insensitive,
        action: action_of_cli(cli),
    }
}

/// The operation that the arguments ask for. A surround needs a prefix and a
/// suffix.
pub fn build_op_from_cli(cli: &Cli, find: &str) -> (op: Op)
    requires
        surround_is_used(*cli) ==> cli.surround->0@.len() >= 2,
    ensures
        op@ == op_of_cli(*cli, find@),
{
    let find = owned(find);
    let regex = cli.regex;
    let case_insensitive = cli.case_insensitive;
    if cli.delete {
        return Op::Delete { find, regex, case_insensitive, multiline: cli.multiline };
    }
    if let Some(content) = &cli.after {
        return Op::InsertAfter { find, content: content.clone(), regex, case_insensitive };
    }
    if let Some(content) = &cli.before {
        return Op::InsertBefore { find, content: content.clone(), regex, case_insensitive };
    }
    if let Some(content) = &cli.replace_line {
        return Op::ReplaceLine { find, content: content.clone(), regex, case_insensitive };
    }
    if let Some(mode) = cli.transform {
        return Op::Transform { find, mode, regex, case_insensitive };
    }
    if let Some(parts) = &cli.surround {
        return Op::Surround {
            find,
            prefix: parts[0].clone(),
            suffix: parts[1].clone(),
            regex,
            case_insensitive,
        };
    }
    if let Some(amount) = cli.indent {
        return Op::Indent { find, amount, use_tabs: false, regex, case_insensitive };
    }
    if let Some(amount) = cli.dedent {
        return Op::Dedent { find, amount, use_tabs: false, regex, case_insensitive };
    }
    let count = if cli.first {
        ReplaceCount::FirstPerLine
    } else if cli.first_in_file {
        ReplaceCount::FirstInFile
    } else {
        match cli.max_replacements {
            Some(n) => ReplaceCount::Max(n),
            None => ReplaceCount::All,
        }
    };
    let replace = match &cli.replace {
        Some(r) => r.clone(),
        None => String::new(),
    };
    Op::Replace { find, replace, regex, case_insensitive, multiline: cli.multiline, count }
}

/// Copies an optional string.
pub fn copy_opt(o: &Option<String>) -> (r: Option<String>)
    ensures
        error::opt_view(r) == error::opt_view(*o),
{
    match o {
        Some(s) => Some(s.clone()),
        None => None,
    }
}

/// Copies an optional pattern range.
fn copy_range(o: &Option<PatternRange>) -> (r: Option<PatternRange>)
    ensures
        operation::pattern_range_view(r) == operation::pattern_range_view(*o),
{
    match o {
        Some(p) => Some(
            PatternRange {
                start_pattern: p.start_pattern.clone(),
                end_pattern: p.end_pattern.clone(),
            },
        ),
        None => None,
    }
}

/// The options that the arguments, the settings and a glob make together.
pub open spec fn options_of_cli(cli: Cli, config: Config, glob: Option<Seq<char>>) -> OptionsView {
    OptionsView {
        dry_run: cli.dry_run,
        root: None,
        gitignore: !cli.no_gitignore && config.defaults.gitignore,
        backup: cli.backup || config.defaults.backup,
        atomic: false,
        glob,
        ignore: error::opt_view(cli.ignore_pattern),
        hidden: cli.hidden,
        max_depth: match cli.max_depth {
            Some(d) => Some(d),
            None => config.defaults.max_depth,
        },
        line_range: cli.line_range,
        range: operation::pattern_range_view(cli.range),
        record_undo: !cli.no_undo,
    }
}

/// The options that the arguments, the settings and a glob make together:
/// arguments override settings.
pub fn build_op_options(cli: &Cli, config: &Config, glob: Option<String>) -> (o: OpOptions)
    ensures
        o@ == options_of_cli(*cli, *config, error::opt_view(glob)),
        o.line_range == cli.line_range,
        operation::pattern_range_view(o.range) == operation::pattern_range_view(cli.range),
        cli.range is Some ==> o@.range_spec() == Some(
            RangeView::Patterns {
                start: cli.range->0.start_pattern@,
                end: cli.range->0.end_pattern@,
            },
        ),
        cli.range is None && cli.line_range is Some ==> o@.range_spec() == Some(
            RangeView::Lines(cli.line_range->0),
        ),
        cli.range is None && cli.line_range is None ==> o@.range_spec() is None,
{
    OpOptions {
        dry_run: cli.dry_run,
        root: None,
        gitignore: if cli.no_gitignore {
            false
        } else {
            config.defaults.gitignore
        },
        backup: cli.backup || config.defaults.backup,
        atomic: false,
        glob,
        ignore: copy_opt(&cli.ignore_pattern),
        hidden: cli.hidden,
        max_depth: match cli.max_depth {
            Some(d) => Some(d),
            None => config.defaults.max_depth,
        },
        line_range: cli.line_range,
        range: copy_range(&cli.range),
        record_undo: !cli.no_undo,
    }
}

/// How many context lines a diff shows: none where no diff is shown.
pub fn display_context_lines(cli: &Cli) -> (n: usize)
    ensures
        n == if cli.quiet || cli.count {
            0int
        } else {
            3int
        },
{
    if cli.quiet || cli.count {
        0
    } else {
        3
    }
}

/// The lines that the arguments let an operation touch; a pattern range takes
/// precedence over a line range.
pub fn cli_range(cli: &Cli) -> (r: Option<RangeSpec>)
    ensures
        operation::range_view(r) == match operation::pattern_range_view(cli.range) {
            Some((start, end)) => Some(RangeView::Patterns { start, end }),
            None => match cli.line_range {
                Some(l) => Some(RangeView::Lines(l)),
                None => None,
            },
        },
{
    choose_range(&cli.range, cli.line_range)
}

/// Why a pipe cannot be set up.
pub enum PipeError {
    MissingPattern,
    BadPattern(error::RipsedError),
}

/// What a pipe applies: the operation, its matcher and its range.
pub struct PipeOp {
    pub op: Op,
    pub matcher: Matcher,
    pub range: Option<RangeSpec>,
}

/// Sets up a pipe from the arguments.
pub fn build_pipe_op(cli: &Cli) -> (r: Result<PipeOp, PipeError>)
    requires
        surround_is_used(*cli) ==> cli.surround->0@.len() >= 2,
    ensures
        match r {
            Ok(p) => {
                &&& cli.find is Some
                &&& p.op@ == op_of_cli(*cli, cli.find->0@)
                &&& p.matcher@ == matcher::matcher_of(p.op@)
                &&& operation::range_view(p.range) == match operation::pattern_range_view(cli.range) {
                    Some((start, end)) => Some(RangeView::Patterns { start, end }),
                    None => match cli.line_range {
                        Some(l) => Some(RangeView::Lines(l)),
                        None => None,
                    },
                }
                &&& matcher::is_compiled(p.op@) ==> rex::regex_compile_error(
                    matcher::compiled_source(p.op@),
                ) is None
            },
            Err(PipeError::MissingPattern) => cli.find is None,
            Err(PipeError::BadPattern(e)) => cli.find is Some && ({
                let op = op_of_cli(*cli, cli.find->0@);
                &&& matcher::is_compiled(op)
                &&& rex::regex_compile_error(matcher::compiled_source(op)) matches Some(cause)
                &&& e@ == matcher::bad_pattern(op, cause)
            }),
        },
{
    let find = match &cli.find {
        Some(f) => f.as_str(),
        None => {
            return Err(PipeError::MissingPattern);
        },
    };
    let op = build_op_from_cli(cli, find);
    match Matcher::new(&op) {
        Ok(m) => Ok(PipeOp { op, matcher: m, range: cli_range(cli) }),
        Err(e) => Err(PipeError::BadPattern(e)),
    }
}

// ---------------------------------------------------------------------------
// Values
// ---------------------------------------------------------------------------

/// Reads the name of a transformation.
pub fn parse_transform_mode(s: &str) -> (r: Result<TransformMode, String>)
    ensures
        match r {
            Ok(mode) => operation::mode_of_name(s@) == Some(mode),
            Err(e) => operation::mode_of_name(s@) is None && e@ == operation::unknown_mode_message(
                s@,
            ),
        },
{
    TransformMode::from_name(s)
}

/// What a limit on replacements reads as.
pub open spec fn max_replacements_of(s: Seq<char>) -> Result<usize, Seq<char>> {
    match strings::usize_value(s) {
        Some(n) => if n == 0 {
            Err("max replacements must be at least 1"@)
        } else {
            Ok(n)
        },
        None => Err("'"@ + s + "' is not a valid number"@),
    }
}

/// Reads a limit on replacements: a positive number.
pub fn parse_max_replacements(s: &str) -> (r: Result<usize, String>)
    ensures
        max_replacements_of(s@) == match r {
            Ok(n) => Ok::<usize, Seq<char>>(n),
            Err(e) => Err::<usize, Seq<char>>(e@),
        },
{
    match parse_usize(s) {
        Some(n) => {
            if n == 0 {
                Err(owned("max replacements must be at least 1"))
            } else {
                Ok(n)
            }
        },
        None => {
            let mut e = owned("'");
            e.append(s);
            e.append("' is not a valid number");
            Err(e)
        },
    }
}

/// What a directory depth reads as.
pub open spec fn max_depth_of(s: Seq<char>) -> Result<usize, Seq<char>> {
    match strings::usize_value(s) {
        Some(n) => if n == 0 {
            Err("max-depth must be >= 1"@)
        } else {
            Ok(n)
        },
        None => Err("invalid max-depth: '"@ + s + "'"@),
    }
}

/// Reads a directory depth: a positive number.
pub fn parse_max_depth(s: &str) -> (r: Result<usize, String>)
    ensures
        max_depth_of(s@) == match r {
            Ok(n) => Ok::<usize, Seq<char>>(n),
            Err(e) => Err::<usize, Seq<char>>(e@),
        },
{
    match parse_usize(s) {
        Some(n) => {
            if n == 0 {
                Err(owned("max-depth must be >= 1"))
            } else {
                Ok(n)
            }
        },
        None => {
            let mut e = owned("invalid max-depth: '");
            e.append(s);
            e.append("'");
            Err(e)
        },
    }
}

/// The position of the first colon from `i` on, or the length of the text.
pub open spec fn first_colon(s: Seq<char>, i: int) -> int
    decreases s.len() - i,
{
    if i >= s.len() {
        s.len() as int
    } else if s[i] == ':' {
        i
    } else {
        first_colon(s, i + 1)
    }
}

/// What a line range reads as: `N:M`, `N:` or `N`, with `1 <= N <= M`.
pub open spec fn line_range_of(s: Seq<char>) -> Result<LineRange, Seq<char>> {
    let c = first_colon(s, 0);
    if c < s.len() {
        let first = s.take(c);
        let last = s.skip(c + 1);
        match strings::usize_value(first) {
            None => Err("invalid line range start: '"@ + first + "'"@),
            Some(start) => if start == 0 {
                Err("line range start must be >= 1"@)
            } else if last.len() == 0 {
                Ok(LineRange { start, end: None })
            } else {
                match strings::usize_value(last) {
                    None => Err("invalid line range end: '"@ + last + "'"@),
                    Some(end) => if end == 0 {
                        Err("line range end must be >= 1"@)
                    } else if start > end {
                        Err(
                            "line range start ("@ + strings::decimal(start as nat)
                                + ") must be <= end ("@ + strings::decimal(end as nat) + ")"@,
                        )
                    } else {
                        Ok(LineRange { start, end: Some(end) })
                    },
                }
            },
        }
    } else {
        match strings::usize_value(s) {
            None => Err("invalid line range: '"@ + s + "'"@),
            Some(start) => if start == 0 {
                Err("line range start must be >= 1"@)
            } else {
                Ok(LineRange { start, end: None })
            },
        }
    }
}

/// A quoted value behind a message.
fn quoted_message(message: &str, value: &str) -> (r: String)
    ensures
        r@ == message@ + value@ + "'"@,
{
    let mut e = owned(message);
    e.append(value);
    e.append("'");
    e
}

/// Reads a line range.
pub fn parse_line_range(s: &str) -> (r: Result<LineRange, String>)
    ensures
        line_range_of(s@) == match r {
            Ok(range) => Ok::<LineRange, Seq<char>>(range),
            Err(e) => Err::<LineRange, Seq<char>>(e@),
        },
{
    let chars = chars_of(s);
    let total = chars.len();
    let mut c: usize = 0;
    while c < total && chars[c] != ':'
        invariant
            chars@ == s@,
            total == chars@.len(),
            c <= total,
            first_colon(s@, 0) == first_colon(s@, c as int),
        decreases total - c,
    {
        c += 1;
    }
    if c < total {
        let first = string_of(&chars, 0, c);
        let last = string_of(&chars, c + 1, total);
        proof {
            assert(first@ =~= s@.take(c as int));
            assert(last@ =~= s@.skip(c + 1));
        }
        let start = match parse_usize(first.as_str()) {
            Some(n) => n,
            None => {
                return Err(quoted_message("invalid line range start: '", first.as_str()));
            },
        };
        if start == 0 {
            return Err(owned("line range start must be >= 1"));
        }
        if last.as_str().is_empty() {
            return Ok(LineRange { start, end: None });
        }
        let end = match parse_usize(last.as_str()) {
            Some(n) => n,
            None => {
                return Err(quoted_message("invalid line range end: '", last.as_str()));
            },
        };
        if end == 0 {
            return Err(owned("line range end must be >= 1"));
        }
        if start > end {
            let mut e = owned("line range start (");
            e.append(to_decimal(start).as_str());
            e.append(") must be <= end (");
            e.append(to_decimal(end).as_str());
            e.append(")");
            return Err(e);
        }
        Ok(LineRange { start, end: Some(end) })
    } else {
        let start = match parse_usize(s) {
            Some(n) => n,
            None => {
                return Err(quoted_message("invalid line range: '", s));
            },
        };
        if start == 0 {
            return Err(owned("line range start must be >= 1"));
        }
        Ok(LineRange { start, end: None })
    }
}

/// A line range that was read starts at line 1 or later and ends no earlier
/// than it starts.
pub proof fn law_line_range_is_ordered(s: Seq<char>)
    ensures
        line_range_of(s) matches Ok(r) ==> r.start >= 1 && (r.end matches Some(e) ==> r.start <= e),
{
}

/// How a pattern range is written.
pub open spec fn range_format() -> Seq<char> {
    "range must look like /start/,/end/"@
}

/// The two patterns of a range as it is written: what stands between slashes
/// before and behind a `/,/`. There is one range only where there is one `/,/`.
pub open spec fn range_patterns(s: Seq<char>) -> Option<(Seq<char>, Seq<char>)> {
    let inner = s.subrange(1, s.len() - 1);
    if s.len() < 2 || s[0] != '/' || s.last() != '/' || !matcher::contains(inner, "/,/"@) {
        None
    } else {
        let i = choose|i: int|
            {
                &&& #[trigger] matcher::occurs_at(inner, "/,/"@, i)
                &&& forall|j: int| 0 <= j < i ==> !matcher::occurs_at(inner, "/,/"@, j)
            };
        if matcher::contains(inner.skip(i + 3), "/,/"@) {
            None
        } else {
            Some((inner.take(i), inner.skip(i + 3)))
        }
    }
}

/// A range that was read is written with the two patterns that it has, and
/// neither of them holds what stands between them.
pub proof fn law_range_is_written_with_its_patterns(s: Seq<char>)
    ensures
        range_patterns(s) matches Some((start, end)) ==> {
            &&& s == "/"@ + start + "/,/"@ + end + "/"@
            &&& !matcher::contains(start, "/,/"@)
            &&& !matcher::contains(end, "/,/"@)
        },
{
    reveal_strlit("/,/");
    reveal_strlit("/");
    if let Some((start, end)) = range_patterns(s) {
        let inner = s.subrange(1, s.len() - 1);
        let i = choose|i: int|
            {
                &&& #[trigger] matcher::occurs_at(inner, "/,/"@, i)
                &&& forall|j: int| 0 <= j < i ==> !matcher::occurs_at(inner, "/,/"@, j)
            };
        lemma_first_separator(inner);
        assert(inner.subrange(i, i + 3) =~= "/,/"@);
        assert(inner =~= start + "/,/"@ + end);
        assert(s =~= "/"@ + start + "/,/"@ + end + "/"@);
        if matcher::contains(start, "/,/"@) {
            let j = choose|j: int| #[trigger] matcher::occurs_at(start, "/,/"@, j);
            assert(inner.subrange(j, j + 3) =~= start.subrange(j, j + 3));
            assert(matcher::occurs_at(inner, "/,/"@, j));
        }
    }
}

/// Where there is a separator there is a first one.
proof fn lemma_first_separator(s: Seq<char>)
    requires
        matcher::contains(s, "/,/"@),
    ensures
        exists|i: int|
            {
                &&& #[trigger] matcher::occurs_at(s, "/,/"@, i)
                &&& forall|j: int| 0 <= j < i ==> !matcher::occurs_at(s, "/,/"@, j)
            },
{
    let k = choose|k: int| #[trigger] matcher::occurs_at(s, "/,/"@, k);
    lemma_first_up_to(s, k);
}

proof fn lemma_first_up_to(s: Seq<char>, k: int)
    requires
        matcher::occurs_at(s, "/,/"@, k),
    ensures
        exists|i: int|
            {
                &&& #[trigger] matcher::occurs_at(s, "/,/"@, i)
                &&& forall|j: int| 0 <= j < i ==> !matcher::occurs_at(s, "/,/"@, j)
            },
    decreases k,
{
    if exists|j: int| 0 <= j < k && #[trigger] matcher::occurs_at(s, "/,/"@, j) {
        let j = choose|j: int| 0 <= j < k && #[trigger] matcher::occurs_at(s, "/,/"@, j);
        lemma_first_up_to(s, j);
    }
}

/// What is said of a range pattern that does not compile.
pub open spec fn range_pattern_message(which: Seq<char>, source: Seq<char>, e: regex::Error) -> Seq<char> {
    "invalid "@ + which + " pattern '"@ + source + "': "@ + rex::regex_error_text(e)
}

/// What a pattern range reads as.
pub open spec fn pattern_range_of(s: Seq<char>) -> Result<(Seq<char>, Seq<char>), Seq<char>> {
    match range_patterns(s) {
        None => Err(range_format()),
        Some((start, end)) => match rex::regex_compile_error(start) {
            Some(e) => Err(range_pattern_message("start"@, start, e)),
            None => match rex::regex_compile_error(end) {
                Some(e) => Err(range_pattern_message("end"@, end, e)),
                None => Ok((start, end)),
            },
        },
    }
}

/// Compiles a range pattern, to find a mistake before any file is read.
fn check_range_pattern(which: &str, source: &str) -> (r: Option<String>)
    ensures
        error::opt_view(r) == match rex::regex_compile_error(source@) {
            Some(e) => Some(range_pattern_message(which@, source@, e)),
            None => None,
        },
{
    match regex::Regex::new(source) {
        Ok(_) => None,
        Err(e) => {
            let mut message = owned("invalid ");
            message.append(which);
            message.append(" pattern '");
            message.append(source);
            message.append("': ");
            message.append(error_text(&e).as_str());
            Some(message)
        },
    }
}

/// Reads a pattern range, `/start/,/end/`. Both patterns are regular
/// expressions; a pattern that holds `/,/` cannot be written this way.
pub fn parse_pattern_range(s: &str) -> (r: Result<PatternRange, String>)
    ensures
        match r {
            Ok(range) => {
                &&& pattern_range_of(s@) == Ok::<(Seq<char>, Seq<char>), Seq<char>>(
                    (range.start_pattern@, range.end_pattern@),
                )
                &&& s@ == "/"@ + range.start_pattern@ + "/,/"@ + range.end_pattern@ + "/"@
                &&& !matcher::contains(range.start_pattern@, "/,/"@)
                &&& !matcher::contains(range.end_pattern@, "/,/"@)
            },
            Err(e) => pattern_range_of(s@) == Err::<(Seq<char>, Seq<char>), Seq<char>>(e@),
        },
{
    let chars = chars_of(s);
    let total = chars.len();
    if total < 2 || chars[0] != '/' || chars[total - 1] != '/' {
        return Err(owned("range must look like /start/,/end/"));
    }
    let inner = string_of(&chars, 1, total - 1);
    let ghost w = inner@;
    proof {
        assert(w =~= s@.subrange(1, s@.len() - 1));
        reveal_strlit("/,/");
    }
    let at = match find_str(inner.as_str(), "/,/") {
        Some(p) => p,
        None => {
            return Err(owned("range must look like /start/,/end/"));
        },
    };
    let ghost i = choose|i: int|
        {
            &&& #[trigger] matcher::occurs_at(w, "/,/"@, i)
            &&& at == offsets::byte_pos(w, i)
            &&& forall|j: int| 0 <= j < i ==> !matcher::occurs_at(w, "/,/"@, j)
        };
    let ghost k = choose|i: int|
        {
            &&& #[trigger] matcher::occurs_at(w, "/,/"@, i)
            &&& forall|j: int| 0 <= j < i ==> !matcher::occurs_at(w, "/,/"@, j)
        };
    proof {
        assert(matcher::contains(w, "/,/"@));
        if i < k {
            assert(!matcher::occurs_at(w, "/,/"@, i));
        }
        if k < i {
            assert(!matcher::occurs_at(w, "/,/"@, k));
        }
        assert(i == k);
        let m = w.subrange(i, i + 3);
        assert(m =~= "/,/"@);
        assert(w[i] == m[0] && w[i + 1] == m[1] && w[i + 2] == m[2]);
        offsets::lemma_ascii_at(w, i);
        offsets::lemma_ascii_at(w, i + 1);
        offsets::lemma_ascii_at(w, i + 2);
        offsets::lemma_byte_pos_ends(w);
        offsets::lemma_slice(w, i + 3, w.len() as int);
    }
    let inner_len = inner.as_str().as_bytes().len();
    let start = owned(slice_str(inner.as_str(), 0, at, Ghost(0), Ghost(i)));
    let end = owned(
        slice_str(inner.as_str(), at + 3, inner_len, Ghost(i + 3), Ghost(w.len() as int)),
    );
    proof {
        assert(start@ =~= w.take(i));
        assert(end@ =~= w.skip(i + 3));
    }
    if find_str(end.as_str(), "/,/").is_some() {
        return Err(owned("range must look like /start/,/end/"));
    }
    proof {
        law_range_is_written_with_its_patterns(s@);
    }
    if let Some(e) = check_range_pattern("start", start.as_str()) {
        return Err(e);
    }
    if let Some(e) = check_range_pattern("end", end.as_str()) {
        return Err(e);
    }
    Ok(PatternRange { start_pattern: start, end_pattern: end })
}

} // verus!
