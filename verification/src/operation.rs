//! Operations and the options that control how they are applied.
use vstd::prelude::*;

use crate::error;
use crate::strings::{owned, str_eq};

verus! {

/// How many columns `indent` and `dedent` move where no amount is given.
pub const DEFAULT_INDENT_AMOUNT: usize = 4;

/// Text transformation modes for the transform operation.
#[derive(Debug, Clone, Copy, PartialEq, Eq, Structural)]
pub enum TransformMode {
    Upper,
    Lower,
    Title,
    SnakeCase,
    CamelCase,
}

/// The name of a mode.
pub open spec fn mode_name(mode: TransformMode) -> Seq<char> {
    match mode {
        TransformMode::Upper => "upper"@,
        TransformMode::Lower => "lower"@,
        TransformMode::Title => "title"@,
        TransformMode::SnakeCase => "snake_case"@,
        TransformMode::CamelCase => "camel_case"@,
    }
}

/// The mode that a name or an alias denotes.
pub open spec fn mode_of_name(s: Seq<char>) -> Option<TransformMode> {
    if s == "upper"@ {
        Some(TransformMode::Upper)
    } else if s == "lower"@ {
        Some(TransformMode::Lower)
    } else if s == "title"@ {
        Some(TransformMode::Title)
    } else if s == "snake_case"@ || s == "snake"@ {
        Some(TransformMode::SnakeCase)
    } else if s == "camel_case"@ || s == "camel"@ {
        Some(TransformMode::CamelCase)
    } else {
        None
    }
}

/// What is said of a name that denotes no mode.
pub open spec fn unknown_mode_message(s: Seq<char>) -> Seq<char> {
    "unknown transform mode '"@ + s
        + "'. Valid modes: upper, lower, title, snake_case, camel_case"@
}

impl TransformMode {
    /// The name of the mode.
    pub fn as_str(self) -> (r: &'static str)
        ensures
            r@ == mode_name(self),
    {
        match self {
            TransformMode::Upper => "upper",
            TransformMode::Lower => "lower",
            TransformMode::Title => "title",
            TransformMode::SnakeCase => "snake_case",
            TransformMode::CamelCase => "camel_case",
        }
    }

    /// Reads a mode from its name; `snake` and `camel` are accepted as short forms.
    pub fn from_name(s: &str) -> (r: Result<TransformMode, String>)
        ensures
            match r {
                Ok(mode) => mode_of_name(s@) == Some(mode),
                Err(message) => mode_of_name(s@) is None && message@ == unknown_mode_message(s@),
            },
    {
        if str_eq(s, "upper") {
            Ok(TransformMode::Upper)
        } else if str_eq(s, "lower") {
            Ok(TransformMode::Lower)
        } else if str_eq(s, "title") {
            Ok(TransformMode::Title)
        } else if str_eq(s, "snake_case") || str_eq(s, "snake") {
            Ok(TransformMode::SnakeCase)
        } else if str_eq(s, "camel_case") || str_eq(s, "camel") {
            Ok(TransformMode::CamelCase)
        } else {
            let mut message = owned("unknown transform mode '");
            message.append(s);
            message.append("'. Valid modes: upper, lower, title, snake_case, camel_case");
            Err(message)
        }
    }
}

impl std::str::FromStr for TransformMode {
    type Err = String;

    fn from_str(s: &str) -> (r: Result<TransformMode, String>)
        ensures
            match r {
                Ok(mode) => mode_of_name(s@) == Some(mode),
                Err(message) => mode_of_name(s@) is None && message@ == unknown_mode_message(s@),
            },
    {
        TransformMode::from_name(s)
    }
}

/// Reading back the name of a mode gives the mode.
pub proof fn law_mode_name_round_trip(mode: TransformMode)
    ensures
        mode_of_name(mode_name(mode)) == Some(mode),
{
    reveal_strlit("upper");
    reveal_strlit("lower");
    reveal_strlit("title");
    reveal_strlit("snake_case");
    reveal_strlit("snake");
    reveal_strlit("camel_case");
    reveal_strlit("camel");
    assert("upper"@[0] != "lower"@[0]);
    assert("upper"@[0] != "title"@[0]);
    assert("lower"@[0] != "title"@[0]);
    assert("snake_case"@[0] != "upper"@[0]);
    assert("snake_case"@[0] != "lower"@[0]);
    assert("snake_case"@[0] != "title"@[0]);
    assert("camel_case"@[0] != "upper"@[0]);
    assert("camel_case"@[0] != "lower"@[0]);
    assert("camel_case"@[0] != "title"@[0]);
    assert("camel_case"@[0] != "snake_case"@[0]);
    assert("camel_case"@[0] != "snake"@[0]);
}

/// How many occurrences a replace touches.
#[derive(Debug, Clone, Copy, PartialEq, Eq, Structural)]
pub enum ReplaceCount {
    /// Every occurrence.
    All,
    /// The first occurrence on each line.
    FirstPerLine,
    /// The first occurrence in the file.
    FirstInFile,
    /// At most this many occurrences in the file.
    Max(usize),
}

impl Default for ReplaceCount {
    fn default() -> (c: ReplaceCount)
        ensures
            c == ReplaceCount::All,
    {
        ReplaceCount::All
    }
}

/// An operation on text. Command-line arguments, scripts and requests are all
/// brought into this form.
#[derive(Debug, Clone, PartialEq, Eq)]
pub enum Op {
    Replace {
        find: String,
        replace: String,
        regex: bool,
        case_insensitive: bool,
        /// Match against the whole buffer instead of line by line, so that
        /// patterns may span line boundaries.
        multiline: bool,
        count: ReplaceCount,
    },
    Delete {
        find: String,
        regex: bool,
        case_insensitive: bool,
        /// Match against the whole buffer and delete the matched span rather
        /// than whole lines.
        multiline: bool,
    },
    InsertAfter { find: String, content: String, regex: bool, case_insensitive: bool },
    InsertBefore { find: String, content: String, regex: bool, case_insensitive: bool },
    ReplaceLine { find: String, content: String, regex: bool, case_insensitive: bool },
    Transform { find: String, mode: TransformMode, regex: bool, case_insensitive: bool },
    Surround { find: String, prefix: String, suffix: String, regex: bool, case_insensitive: bool },
    Indent { find: String, amount: usize, use_tabs: bool, regex: bool, case_insensitive: bool },
    Dedent { find: String, amount: usize, use_tabs: bool, regex: bool, case_insensitive: bool },
}

/// What an operation does to the text that its pattern selects.
#[verifier::ext_equal]
pub enum Action {
    Replace { replace: Seq<char>, multiline: bool, count: ReplaceCount },
    Delete { multiline: bool },
    InsertAfter { content: Seq<char> },
    InsertBefore { content: Seq<char> },
    ReplaceLine { content: Seq<char> },
    Transform { mode: TransformMode },
    Surround { prefix: Seq<char>, suffix: Seq<char> },
    Indent { amount: usize, use_tabs: bool },
    Dedent { amount: usize, use_tabs: bool },
}

/// An operation: what it looks for, and what it does there.
#[verifier::ext_equal]
pub struct OpView {
    pub find: Seq<char>,
    pub regex: bool,
    pub case_insensitive: bool,
    pub action: Action,
}

impl View for Op {
    type V = OpView;

    open spec fn view(&self) -> OpView {
        match *self {
            Op::Replace { find, replace, regex, case_insensitive, multiline, count } => OpView {
                find: find@,
                regex,
                case_insensitive,
                action: Action::Replace { replace: replace@, multiline, count },
            },
            Op::Delete { find, regex, case_insensitive, multiline } => OpView {
                find: find@,
                regex,
                case_insensitive,
                action: Action::Delete { multiline },
            },
            Op::InsertAfter { find, content, regex, case_insensitive } => OpView {
                find: find@,
                regex,
                case_insensitive,
                action: Action::InsertAfter { content: content@ },
            },
            Op::InsertBefore { find, content, regex, case_insensitive } => OpView {
                find: find@,
                regex,
                case_insensitive,
                action: Action::InsertBefore { content: content@ },
            },
            Op::ReplaceLine { find, content, regex, case_insensitive } => OpView {
                find: find@,
                regex,
                case_insensitive,
                action: Action::ReplaceLine { content: content@ },
            },
            Op::Transform { find, mode, regex, case_insensitive } => OpView {
                find: find@,
                regex,
                case_insensitive,
                action: Action::Transform { mode },
            },
            Op::Surround { find, prefix, suffix, regex, case_insensitive } => OpView {
                find: find@,
                regex,
                case_insensitive,
                action: Action::Surround { prefix: prefix@, suffix: suffix@ },
            },
            Op::Indent { find, amount, use_tabs, regex, case_insensitive } => OpView {
                find: find@,
                regex,
                case_insensitive,
                action: Action::Indent { amount, use_tabs },
            },
            Op::Dedent { find, amount, use_tabs, regex, case_insensitive } => OpView {
                find: find@,
                regex,
                case_insensitive,
                action: Action::Dedent { amount, use_tabs },
            },
        }
    }
}

impl OpView {
    /// Whether the operation matches against the whole buffer. Only replace
    /// and delete can.
    pub open spec fn multiline(self) -> bool {
        match self.action {
            Action::Replace { multiline, .. } => multiline,
            Action::Delete { multiline } => multiline,
            _ => false,
        }
    }
}

impl Op {
    /// The pattern that the operation looks for.
    pub fn find_pattern(&self) -> (r: &str)
        ensures
            r@ == self@.find,
    {
        match self {
            Op::Replace { find, .. } => find.as_str(),
            Op::Delete { find, .. } => find.as_str(),
            Op::InsertAfter { find, .. } => find.as_str(),
            Op::InsertBefore { find, .. } => find.as_str(),
            Op::ReplaceLine { find, .. } => find.as_str(),
            Op::Transform { find, .. } => find.as_str(),
            Op::Surround { find, .. } => find.as_str(),
            Op::Indent { find, .. } => find.as_str(),
            Op::Dedent { find, .. } => find.as_str(),
        }
    }

    /// Whether the operation matches against the whole buffer, so that its
    /// pattern may span line boundaries. Only replace and delete do; every
    /// other operation works on lines.
    pub fn is_multiline(&self) -> (b: bool)
        ensures
            b == self@.multiline(),
    {
        match self {
            Op::Replace { multiline, .. } => *multiline,
            Op::Delete { multiline, .. } => *multiline,
            _ => false,
        }
    }

    /// Whether the pattern is a regular expression.
    pub fn is_regex(&self) -> (b: bool)
        ensures
            b == self@.regex,
    {
        match self {
            Op::Replace { regex, .. } => *regex,
            Op::Delete { regex, .. } => *regex,
            Op::InsertAfter { regex, .. } => *regex,
            Op::InsertBefore { regex, .. } => *regex,
            Op::ReplaceLine { regex, .. } => *regex,
            Op::Transform { regex, .. } => *regex,
            Op::Surround { regex, .. } => *regex,
            Op::Indent { regex, .. } => *regex,
            Op::Dedent { regex, .. } => *regex,
        }
    }

    /// Whether letters match in either case.
    pub fn is_case_insensitive(&self) -> (b: bool)
        ensures
            b == self@.case_insensitive,
    {
        match self {
            Op::Replace { case_insensitive, .. } => *case_insensitive,
            Op::Delete { case_insensitive, .. } => *case_insensitive,
            Op::InsertAfter { case_insensitive, .. } => *case_insensitive,
            Op::InsertBefore { case_insensitive, .. } => *case_insensitive,
            Op::ReplaceLine { case_insensitive, .. } => *case_insensitive,
            Op::Transform { case_insensitive, .. } => *case_insensitive,
            Op::Surround { case_insensitive, .. } => *case_insensitive,
            Op::Indent { case_insensitive, .. } => *case_insensitive,
            Op::Dedent { case_insensitive, .. } => *case_insensitive,
        }
    }
}

/// A range of lines to operate on (1-indexed, inclusive; open at the end
/// where `end` is `None`).
#[derive(Debug, Clone, Copy, PartialEq, Eq, Structural)]
pub struct LineRange {
    pub start: usize,
    pub end: Option<usize>,
}

/// Whether a line number lies in a range.
pub open spec fn line_in_range(range: LineRange, line: int) -> bool {
    range.start <= line && match range.end {
        Some(end) => line <= end,
        None => true,
    }
}

impl LineRange {
    /// Whether the range holds a line number.
    pub fn contains(&self, line: usize) -> (b: bool)
        ensures
            b == line_in_range(*self, line as int),
    {
        line >= self.start && match self.end {
            Some(end) => line <= end,
            None => true,
        }
    }
}

/// A range of lines addressed by two regular expressions, as in sed's
/// `/start/,/end/`.
#[derive(Debug, Clone, PartialEq, Eq)]
pub struct PatternRange {
    pub start_pattern: String,
    pub end_pattern: String,
}

/// Which lines an operation may touch.
#[derive(Debug, Clone, PartialEq, Eq)]
pub enum RangeSpec {
    Lines(LineRange),
    Patterns(PatternRange),
}

/// The lines that a [`RangeSpec`] addresses.
#[verifier::ext_equal]
pub enum RangeView {
    Lines(LineRange),
    Patterns { start: Seq<char>, end: Seq<char> },
}

impl View for RangeSpec {
    type V = RangeView;

    open spec fn view(&self) -> RangeView {
        match *self {
            RangeSpec::Lines(range) => RangeView::Lines(range),
            RangeSpec::Patterns(p) => RangeView::Patterns {
                start: p.start_pattern@,
                end: p.end_pattern@,
            },
        }
    }
}

/// The view of an optional range.
pub open spec fn range_view(range: Option<RangeSpec>) -> Option<RangeView> {
    match range {
        Some(r) => Some(r@),
        None => None,
    }
}

/// Options that control how operations are applied.
#[derive(Debug, Clone, PartialEq, Eq)]
pub struct OpOptions {
    pub dry_run: bool,
    pub root: Option<String>,
    pub gitignore: bool,
    pub backup: bool,
    pub atomic: bool,
    pub glob: Option<String>,
    pub ignore: Option<String>,
    pub hidden: bool,
    pub max_depth: Option<usize>,
    pub line_range: Option<LineRange>,
    pub range: Option<PatternRange>,
    pub record_undo: bool,
}

/// The view of an optional pattern range: its start and its end.
pub open spec fn pattern_range_view(range: Option<PatternRange>) -> Option<(Seq<char>, Seq<char>)> {
    match range {
        Some(p) => Some((p.start_pattern@, p.end_pattern@)),
        None => None,
    }
}

/// What [`OpOptions`] say.
#[verifier::ext_equal]
pub struct OptionsView {
    pub dry_run: bool,
    pub root: Option<Seq<char>>,
    pub gitignore: bool,
    pub backup: bool,
    pub atomic: bool,
    pub glob: Option<Seq<char>>,
    pub ignore: Option<Seq<char>>,
    pub hidden: bool,
    pub max_depth: Option<usize>,
    pub line_range: Option<LineRange>,
    pub range: Option<(Seq<char>, Seq<char>)>,
    pub record_undo: bool,
}

impl View for OpOptions {
    type V = OptionsView;

    open spec fn view(&self) -> OptionsView {
        OptionsView {
            dry_run: self.dry_run,
            root: error::opt_view(self.root),
            gitignore: self.gitignore,
            backup: self.backup,
            atomic: self.atomic,
            glob: error::opt_view(self.glob),
            ignore: error::opt_view(self.ignore),
            hidden: self.hidden,
            max_depth: self.max_depth,
            line_range: self.line_range,
            range: pattern_range_view(self.range),
            record_undo: self.record_undo,
        }
    }
}

impl Default for OpOptions {
    /// A preview that respects ignore files and touches every line.
    fn default() -> (o: OpOptions)
        ensures
            o@ == (OptionsView {
                dry_run: true,
                root: None,
                gitignore: true,
                backup: false,
                atomic: false,
                glob: None,
                ignore: None,
                hidden: false,
                max_depth: None,
                line_range: None,
                range: None,
                record_undo: true,
            }),
    {
        OpOptions {
            dry_run: true,
            root: None,
            gitignore: true,
            backup: false,
            atomic: false,
            glob: None,
            ignore: None,
            hidden: false,
            max_depth: None,
            line_range: None,
            range: None,
            record_undo: true,
        }
    }
}

impl OptionsView {
    /// The lines that the options let an operation touch. A pattern range
    /// takes precedence over a line range.
    pub open spec fn range_spec(self) -> Option<RangeView> {
        match self.range {
            Some((start, end)) => Some(RangeView::Patterns { start, end }),
            None => match self.line_range {
                Some(r) => Some(RangeView::Lines(r)),
                None => None,
            },
        }
    }
}

/// The range that a pattern range and a line range stand for together; the
/// pattern range takes precedence.
pub fn choose_range(range: &Option<PatternRange>, line_range: Option<LineRange>) -> (r: Option<
    RangeSpec,
>)
    ensures
        range_view(r) == match pattern_range_view(*range) {
            Some((start, end)) => Some(RangeView::Patterns { start, end }),
            None => match line_range {
                Some(l) => Some(RangeView::Lines(l)),
                None => None,
            },
        },
{
    match range {
        Some(p) => Some(
            RangeSpec::Patterns(
                PatternRange {
                    start_pattern: p.start_pattern.clone(),
                    end_pattern: p.end_pattern.clone(),
                },
            ),
        ),
        None => match line_range {
            Some(l) => Some(RangeSpec::Lines(l)),
            None => None,
        },
    }
}

impl OpOptions {
    /// The lines that the options let an operation touch.
    pub fn range_spec(&self) -> (r: Option<RangeSpec>)
        ensures
            range_view(r) == self@.range_spec(),
    {
        choose_range(&self.range, self.line_range)
    }
}

} // verus!
