//! Structured requests: what they hold, and when they are refused.
use vstd::prelude::*;

use crate::cli::copy_opt;
use crate::error;
use crate::error::{ErrorView, RipsedError};
use crate::operation::{Action, Op, OpOptions, OpView, OptionsView, ReplaceCount};
use crate::rex;
use crate::rex::error_text;
use crate::strings;
use crate::strings::{chars_of, owned, str_eq, to_decimal};

verus! {

/// The version of the request format.
pub const CURRENT_VERSION: &'static str = "1";

/// A field that a request carries besides those that have a meaning.
#[derive(Debug, Clone, PartialEq, Eq)]
pub struct ExtraField {
    pub name: String,
    pub value: ExtraValue,
}

/// The value of an extra field.
#[derive(Debug, Clone, PartialEq, Eq)]
pub enum ExtraValue {
    Bool(bool),
    Text(String),
    /// A value of another type, as JSON text.
    Other(String),
}

/// A structured request.
#[derive(Debug, Clone, PartialEq, Eq)]
pub struct JsonRequest {
    pub version: String,
    pub operations: Vec<JsonOp>,
    pub options: OpOptions,
    /// Undo request (excludes operations).
    pub undo: Option<UndoRequest>,
    /// Unknown fields, kept as they came.
    pub extra: Vec<ExtraField>,
}

/// One operation of a request, with a glob of its own.
#[derive(Debug, Clone, PartialEq, Eq)]
pub struct JsonOp {
    pub op: Op,
    pub glob: Option<String>,
    /// The fields of the operation as they came, those that the operation
    /// itself read among them.
    pub extra: Vec<ExtraField>,
}

/// An undo request.
#[derive(Debug, Clone, Copy, PartialEq, Eq, Structural)]
pub struct UndoRequest {
    pub last: usize,
}

/// Whether requests of this version are understood.
pub fn is_supported_version(version: &str) -> (b: bool)
    ensures
        b == (version@ == CURRENT_VERSION@),
{
    str_eq(version, CURRENT_VERSION)
}

// ---------------------------------------------------------------------------
// Globs
// ---------------------------------------------------------------------------

/// The position behind the brace that closes one opened `depth` times before
/// `i`; `None` where the text ends first.
pub open spec fn brace_close(s: Seq<char>, i: int, depth: nat) -> Option<int>
    decreases s.len() - i,
{
    if i >= s.len() {
        None
    } else if s[i] == '{' {
        brace_close(s, i + 1, depth + 1)
    } else if s[i] == '}' {
        if depth <= 1 {
            Some(i + 1)
        } else {
            brace_close(s, i + 1, (depth - 1) as nat)
        }
    } else {
        brace_close(s, i + 1, depth)
    }
}

/// What closes a brace stands behind it.
pub proof fn lemma_brace_close_bounds(s: Seq<char>, i: int, depth: nat)
    ensures
        brace_close(s, i, depth) matches Some(j) ==> i < j <= s.len(),
    decreases s.len() - i,
{
    if i < s.len() {
        if s[i] == '{' {
            lemma_brace_close_bounds(s, i + 1, depth + 1);
        } else if s[i] == '}' {
            if depth > 1 {
                lemma_brace_close_bounds(s, i + 1, (depth - 1) as nat);
            }
        } else {
            lemma_brace_close_bounds(s, i + 1, depth);
        }
    }
}

/// What is wrong with a glob from position `i` on, where a bracket is open or
/// not: braces must close, nothing may close that was not opened, and a
/// bracket must close. A backslash takes the next character out of account.
pub open spec fn glob_fault_from(s: Seq<char>, i: int, in_bracket: bool) -> Option<Seq<char>>
    decreases s.len() - i,
{
    if i >= s.len() {
        if in_bracket {
            Some("Unmatched '[' in glob pattern. Add a closing ']'."@)
        } else {
            None
        }
    } else if s[i] == '\\' {
        let next = if i + 2 <= s.len() {
            i + 2
        } else {
            s.len() as int
        };
        glob_fault_from(s, next, in_bracket)
    } else if s[i] == '[' {
        glob_fault_from(s, i + 1, true)
    } else if s[i] == ']' {
        glob_fault_from(s, i + 1, false)
    } else if s[i] == '{' {
        proof {
            lemma_brace_close_bounds(s, i + 1, 1);
        }
        match brace_close(s, i + 1, 1) {
            Some(j) => glob_fault_from(s, j, in_bracket),
            None => Some("Unmatched '{' in glob pattern. Add a closing '}'."@),
        }
    } else if s[i] == '}' {
        Some("Unmatched '}' in glob pattern. Remove the extra '}' or add an opening '{'."@)
    } else {
        glob_fault_from(s, i + 1, in_bracket)
    }
}

/// What is wrong with a glob, `None` for a glob in order.
pub open spec fn glob_fault(s: Seq<char>) -> Option<Seq<char>> {
    if s.len() == 0 {
        Some("Glob pattern must not be empty."@)
    } else {
        glob_fault_from(s, 0, false)
    }
}

/// Finds the brace that closes one opened before `start`.
fn find_brace_close(chars: &Vec<char>, start: usize) -> (r: Option<usize>)
    requires
        0 < start <= chars@.len(),
    ensures
        brace_close(chars@, start as int, 1) == match r {
            Some(j) => Some(j as int),
            None => None,
        },
        r matches Some(j) ==> start < j <= chars@.len(),
{
    let total = chars.len();
    let mut i: usize = start;
    let mut depth: usize = 1;
    while i < total
        invariant
            total == chars@.len(),
            0 < start <= i <= total,
            1 <= depth <= i - start + 1,
            brace_close(chars@, start as int, 1) == brace_close(chars@, i as int, depth as nat),
        decreases total - i,
    {
        let c = chars[i];
        if c == '{' {
            depth += 1;
        } else if c == '}' {
            if depth == 1 {
                return Some(i + 1);
            }
            depth -= 1;
        }
        i += 1;
    }
    None
}

/// Checks a glob for brackets and braces that do not match.
pub fn validate_glob_pattern(pattern: &str) -> (r: Result<(), String>)
    ensures
        glob_fault(pattern@) == match r {
            Ok(_) => None,
            Err(e) => Some(e@),
        },
{
    let chars = chars_of(pattern);
    let total = chars.len();
    if total == 0 {
        return Err(owned("Glob pattern must not be empty."));
    }
    let mut in_bracket = false;
    let mut i: usize = 0;
    while i < total
        invariant
            chars@ == pattern@,
            total == chars@.len(),
            total > 0,
            i <= total,
            glob_fault(pattern@) == glob_fault_from(pattern@, i as int, in_bracket),
        decreases total - i,
    {
        let c = chars[i];
        if c == '\\' {
            i = if i + 1 < total {
                i + 2
            } else {
                total
            };
        } else if c == '[' {
            in_bracket = true;
            i += 1;
        } else if c == ']' {
            in_bracket = false;
            i += 1;
        } else if c == '{' {
            match find_brace_close(&chars, i + 1) {
                Some(j) => {
                    i = j;
                },
                None => {
                    return Err(owned("Unmatched '{' in glob pattern. Add a closing '}'."));
                },
            }
        } else if c == '}' {
            return Err(
                owned(
                    "Unmatched '}' in glob pattern. Remove the extra '}' or add an opening '{'.",
                ),
            );
        } else {
            i += 1;
        }
    }
    if in_bracket {
        return Err(owned("Unmatched '[' in glob pattern. Add a closing ']'."));
    }
    Ok(())
}

// ---------------------------------------------------------------------------
// Operations
// ---------------------------------------------------------------------------

/// What an operation is called in a request.
pub open spec fn action_name(action: Action) -> Seq<char> {
    match action {
        Action::Replace { .. } => "replace"@,
        Action::Delete { .. } => "delete"@,
        Action::InsertAfter { .. } => "insert_after"@,
        Action::InsertBefore { .. } => "insert_before"@,
        Action::ReplaceLine { .. } => "replace_line"@,
        Action::Transform { .. } => "transform"@,
        Action::Surround { .. } => "surround"@,
        Action::Indent { .. } => "indent"@,
        Action::Dedent { .. } => "dedent"@,
    }
}

/// What an operation is called in a request.
fn op_name(op: &Op) -> (r: &'static str)
    ensures
        r@ == action_name(op@.action),
{
    match op {
        Op::Replace { .. } => "replace",
        Op::Delete { .. } => "delete",
        Op::InsertAfter { .. } => "insert_after",
        Op::InsertBefore { .. } => "insert_before",
        Op::ReplaceLine { .. } => "replace_line",
        Op::Transform { .. } => "transform",
        Op::Surround { .. } => "surround",
        Op::Indent { .. } => "indent",
        Op::Dedent { .. } => "dedent",
    }
}

/// `Operation N` with something behind it.
pub open spec fn op_message(index: usize, rest: Seq<char>) -> Seq<char> {
    "Operation "@ + strings::decimal(index as nat) + rest
}

/// A hint that ends in the number of an operation.
pub open spec fn op_hint(hint: Seq<char>, index: usize) -> Seq<char> {
    hint + strings::decimal(index as nat) + "."@
}

/// The content that a line operation writes.
pub open spec fn content_of(action: Action) -> Option<Seq<char>> {
    match action {
        Action::InsertAfter { content } => Some(content),
        Action::InsertBefore { content } => Some(content),
        Action::ReplaceLine { content } => Some(content),
        _ => None,
    }
}

/// Why an operation is refused, `None` where it is in order: the first of
/// an empty pattern, nothing to write, a pattern that does not compile, a
/// count of zero, and a count per line over a whole text.
pub open spec fn op_fault(index: usize, op: OpView) -> Option<ErrorView> {
    let name = action_name(op.action);
    if op.find.len() == 0 {
        Some(
            error::invalid_request_error(
                op_message(index, ": 'find' must not be empty for "@ + name + "."@),
                op_hint("Set a non-empty 'find' pattern in operation "@, index),
            ),
        )
    } else if content_of(op.action) matches Some(c) && c.len() == 0 {
        Some(
            error::invalid_request_error(
                op_message(index, ": 'content' must not be empty for "@ + name + "."@),
                op_hint("Set a non-empty 'content' in operation "@, index),
            ),
        )
    } else if op.action matches Action::Surround { prefix, suffix } && prefix.len() == 0
        && suffix.len() == 0 {
        Some(
            error::invalid_request_error(
                op_message(
                    index,
                    ": 'prefix' or 'suffix' must not both be empty for surround."@,
                ),
                op_hint("Set a non-empty 'prefix' or 'suffix' in operation "@, index),
            ),
        )
    } else if op.regex && rex::regex_compile_error(op.find) is Some {
        Some(
            error::invalid_regex_error(
                index,
                op.find,
                rex::regex_error_text(rex::regex_compile_error(op.find)->0),
            ),
        )
    } else if op.action matches Action::Replace { count, .. } && count == ReplaceCount::Max(0) {
        Some(
            error::invalid_request_error(
                op_message(index, ": 'count' max must be at least 1."@),
                op_hint("Set {\"max\": n} with n >= 1 in operation "@, index),
            ),
        )
    } else if op.action matches Action::Replace { count, multiline, .. } && multiline && count
        == ReplaceCount::FirstPerLine {
        Some(
            error::invalid_request_error(
                op_message(index, ": 'first_per_line' count is not supported with multiline."@),
                "Per-line counting has no meaning when matching the whole buffer; use 'first_in_file' or {\"max\": n}."@,
            ),
        )
    } else {
        None
    }
}

/// Writes `Operation N` with something behind it.
fn write_op_message(index: usize, rest: &str) -> (r: String)
    ensures
        r@ == op_message(index, rest@),
{
    let mut m = owned("Operation ");
    m.append(to_decimal(index).as_str());
    m.append(rest);
    m
}

/// Writes a hint that ends in the number of an operation.
fn write_op_hint(hint: &str, index: usize) -> (r: String)
    ensures
        r@ == op_hint(hint@, index),
{
    let mut m = owned(hint);
    m.append(to_decimal(index).as_str());
    m.append(".");
    m
}

/// A refusal that names a field and the operation that lacks it.
fn empty_field(index: usize, field: &str, name: &str, hint: &str) -> (e: RipsedError)
    ensures
        e@ == error::invalid_request_error(
            op_message(index, field@ + name@ + "."@),
            op_hint(hint@, index),
        ),
{
    let mut rest = owned(field);
    rest.append(name);
    rest.append(".");
    RipsedError::invalid_request(
        write_op_message(index, rest.as_str()).as_str(),
        write_op_hint(hint, index).as_str(),
    )
}

/// The content that a line operation writes.
fn line_content(op: &Op) -> (r: Option<&str>)
    ensures
        content_of(op@.action) == match r {
            Some(s) => Some(s@),
            None => None,
        },
{
    match op {
        Op::InsertAfter { content, .. } => Some(content.as_str()),
        Op::InsertBefore { content, .. } => Some(content.as_str()),
        Op::ReplaceLine { content, .. } => Some(content.as_str()),
        _ => None,
    }
}

/// Checks that a pattern compiles.
pub fn validate_regex(index: usize, pattern: &str) -> (r: Result<(), RipsedError>)
    ensures
        match r {
            Ok(_) => rex::regex_compile_error(pattern@) is None,
            Err(e) => rex::regex_compile_error(pattern@) matches Some(cause) && e@
                == error::invalid_regex_error(index, pattern@, rex::regex_error_text(cause)),
        },
{
    match regex::Regex::new(pattern) {
        Ok(_) => Ok(()),
        Err(e) => Err(RipsedError::invalid_regex(index, pattern, error_text(&e).as_str())),
    }
}

/// Checks one operation.
pub fn validate_op(index: usize, op: &Op) -> (r: Result<(), RipsedError>)
    ensures
        op_fault(index, op@) == match r {
            Ok(_) => None,
            Err(e) => Some(e@),
        },
{
    let name = op_name(op);
    let find = op.find_pattern();
    if find.is_empty() {
        return Err(
            empty_field(
                index,
                ": 'find' must not be empty for ",
                name,
                "Set a non-empty 'find' pattern in operation ",
            ),
        );
    }
    if let Some(content) = line_content(op) {
        if content.is_empty() {
            return Err(
                empty_field(
                    index,
                    ": 'content' must not be empty for ",
                    name,
                    "Set a non-empty 'content' in operation ",
                ),
            );
        }
    }
    if let Op::Surround { prefix, suffix, .. } = op {
        if prefix.as_str().is_empty() && suffix.as_str().is_empty() {
            return Err(
                RipsedError::invalid_request(
                    write_op_message(
                        index,
                        ": 'prefix' or 'suffix' must not both be empty for surround.",
                    ).as_str(),
                    write_op_hint(
                        "Set a non-empty 'prefix' or 'suffix' in operation ",
                        index,
                    ).as_str(),
                ),
            );
        }
    }
    if op.is_regex() {
        if let Err(e) = validate_regex(index, find) {
            return Err(e);
        }
    }
    if let Op::Replace { count, multiline, .. } = op {
        if let ReplaceCount::Max(n) = count {
            if *n == 0 {
                return Err(
                    RipsedError::invalid_request(
                        write_op_message(index, ": 'count' max must be at least 1.").as_str(),
                        write_op_hint(
                            "Set {\"max\": n} with n >= 1 in operation ",
                            index,
                        ).as_str(),
                    ),
                );
            }
        }
        if *multiline && *count == ReplaceCount::FirstPerLine {
            return Err(
                RipsedError::invalid_request(
                    write_op_message(
                        index,
                        ": 'first_per_line' count is not supported with multiline.",
                    ).as_str(),
                    "Per-line counting has no meaning when matching the whole buffer; use 'first_in_file' or {\"max\": n}.",
                ),
            );
        }
    }
    Ok(())
}

// ---------------------------------------------------------------------------
// Extra fields
// ---------------------------------------------------------------------------

/// The value of the first extra field of a name.
pub open spec fn extra_value(extra: Seq<ExtraField>, name: Seq<char>) -> Option<ExtraValue>
    decreases extra.len(),
{
    if extra.len() == 0 {
        None
    } else if extra[0].name@ == name {
        Some(extra[0].value)
    } else {
        extra_value(extra.skip(1), name)
    }
}

/// Finds the value of the first extra field of a name.
pub fn find_extra<'a>(extra: &'a Vec<ExtraField>, name: &str) -> (r: Option<&'a ExtraValue>)
    ensures
        extra_value(extra@, name@) == match r {
            Some(v) => Some(*v),
            None => None,
        },
{
    let mut i: usize = 0;
    proof {
        assert(extra@.skip(0) =~= extra@);
    }
    while i < extra.len()
        invariant
            i <= extra@.len(),
            extra_value(extra@, name@) == extra_value(extra@.skip(i as int), name@),
        decreases extra@.len() - i,
    {
        proof {
            assert(extra@.skip(i as int)[0] == extra@[i as int]);
            assert(extra@.skip(i as int).skip(1) =~= extra@.skip(i + 1));
        }
        if str_eq(extra[i].name.as_str(), name) {
            return Some(&extra[i].value);
        }
        i += 1;
    }
    None
}

/// Whether the fields ask for matching across lines: anything but `false`.
pub open spec fn wants_multiline(extra: Seq<ExtraField>) -> bool {
    match extra_value(extra, "multiline"@) {
        Some(ExtraValue::Bool(b)) => b,
        Some(_) => true,
        None => false,
    }
}

/// Whether the fields ask for a count: anything but `"all"`.
pub open spec fn wants_count(extra: Seq<ExtraField>) -> bool {
    match extra_value(extra, "count"@) {
        Some(ExtraValue::Text(s)) => s@ != "all"@,
        Some(_) => true,
        None => false,
    }
}

/// What is said of an operation that carries a field it does not know.
pub open spec fn unsupported_field(index: usize, rest: Seq<char>, hint: Seq<char>) -> ErrorView {
    ErrorView {
        operation_index: Some(index),
        ..error::invalid_request_error(op_message(index, rest), hint)
    }
}

/// What is said of a bad glob, with the place it stands in.
pub open spec fn bad_glob(
    what: Seq<char>,
    fix: Seq<char>,
    glob: Seq<char>,
    place: Seq<char>,
    fault: Seq<char>,
) -> ErrorView {
    error::invalid_request_error(
        what + place + ": "@ + fault,
        fix + glob + "' in "@ + place + ". "@ + fault,
    )
}

/// `operation N`.
pub open spec fn op_place(index: usize) -> Seq<char> {
    "operation "@ + strings::decimal(index as nat)
}

/// Why one operation of a request is refused.
pub open spec fn json_op_fault(index: usize, json_op: JsonOp) -> Option<ErrorView> {
    let action = json_op.op@.action;
    if op_fault(index, json_op.op@) is Some {
        op_fault(index, json_op.op@)
    } else if !(action is Replace) && !(action is Delete) && wants_multiline(json_op.extra@) {
        Some(
            unsupported_field(
                index,
                ": 'multiline' is not supported for this operation type."@,
                "Multiline matching is only available for 'replace' and 'delete' operations."@,
            ),
        )
    } else if !(action is Replace) && wants_count(json_op.extra@) {
        Some(
            unsupported_field(
                index,
                ": 'count' is not supported for this operation type."@,
                "Replacement counts are only available for 'replace' operations."@,
            ),
        )
    } else {
        match json_op.glob {
            Some(g) => match glob_fault(g@) {
                Some(fault) => Some(
                    bad_glob(
                        "Invalid glob in "@,
                        "Fix the glob pattern '"@,
                        g@,
                        op_place(index),
                        fault,
                    ),
                ),
                None => None,
            },
            None => None,
        }
    }
}

/// Why the operations of a request are refused, from number `from` on.
pub open spec fn ops_fault(ops: Seq<JsonOp>, from: int) -> Option<ErrorView>
    decreases ops.len() - from,
{
    if from < 0 || from >= ops.len() {
        None
    } else if json_op_fault(from as usize, ops[from]) is Some {
        json_op_fault(from as usize, ops[from])
    } else {
        ops_fault(ops, from + 1)
    }
}

/// Why a request is refused for its version, or for what it asks to do.
pub open spec fn shape_fault(r: JsonRequest) -> Option<ErrorView> {
    if r.version@ != CURRENT_VERSION@ {
        Some(
            error::invalid_request_error(
                "Unknown version '"@ + r.version@ + "'. Supported versions: "@ + CURRENT_VERSION@,
                "Set \"version\": \""@ + CURRENT_VERSION@ + "\" in your request."@,
            ),
        )
    } else if r.undo is Some && r.operations@.len() > 0 {
        Some(
            error::invalid_request_error(
                "Request cannot contain both 'operations' and 'undo'."@,
                "Send undo and operations as separate requests."@,
            ),
        )
    } else if r.undo is None && r.operations@.len() == 0 {
        Some(
            error::invalid_request_error(
                "Request must contain 'operations' or 'undo'."@,
                "Add at least one operation or an undo request."@,
            ),
        )
    } else if r.undo matches Some(u) && u.last == 0 {
        Some(
            error::invalid_request_error(
                "Undo 'last' must be at least 1."@,
                "Set \"last\" to the number of operations to undo (minimum 1)."@,
            ),
        )
    } else {
        None
    }
}

/// Why a request is refused for its options: a glob is malformed, or lines are
/// chosen both by number and by pattern.
pub open spec fn options_fault(options: OptionsView) -> Option<ErrorView> {
    if options.glob matches Some(g) && glob_fault(g) is Some {
        Some(
            bad_glob(
                "Invalid glob in "@,
                "Fix the glob pattern '"@,
                options.glob->0,
                "options"@,
                glob_fault(options.glob->0)->0,
            ),
        )
    } else if options.ignore matches Some(g) && glob_fault(g) is Some {
        Some(
            bad_glob(
                "Invalid ignore glob in "@,
                "Fix the ignore pattern '"@,
                options.ignore->0,
                "options"@,
                glob_fault(options.ignore->0)->0,
            ),
        )
    } else if options.line_range is Some && options.range is Some {
        Some(
            error::invalid_request_error(
                "Options cannot contain both 'line_range' and 'range'."@,
                "Choose lines by number or by pattern, not by both."@,
            ),
        )
    } else {
        None
    }
}

/// Why a request is refused, `None` where it is in order.
pub open spec fn request_fault(r: JsonRequest) -> Option<ErrorView> {
    if shape_fault(r) is Some {
        shape_fault(r)
    } else if ops_fault(r.operations@, 0) is Some {
        ops_fault(r.operations@, 0)
    } else {
        options_fault(r.options@)
    }
}

/// Checks a glob that stands in a named place.
fn check_glob(what: &str, fix: &str, glob: &str, place: &str) -> (r: Result<(), RipsedError>)
    ensures
        match r {
            Ok(_) => glob_fault(glob@) is None,
            Err(e) => glob_fault(glob@) matches Some(fault) && e@ == bad_glob(
                what@,
                fix@,
                glob@,
                place@,
                fault,
            ),
        },
{
    match validate_glob_pattern(glob) {
        Ok(_) => Ok(()),
        Err(fault) => {
            let mut message = owned(what);
            message.append(place);
            message.append(": ");
            message.append(fault.as_str());
            let mut hint = owned(fix);
            hint.append(glob);
            hint.append("' in ");
            hint.append(place);
            hint.append(". ");
            hint.append(fault.as_str());
            Err(RipsedError::invalid_request(message.as_str(), hint.as_str()))
        },
    }
}

/// A refusal of a field that an operation does not know.
fn refuse_field(index: usize, rest: &str, hint: &str) -> (e: RipsedError)
    ensures
        e@ == unsupported_field(index, rest@, hint@),
{
    let mut e = RipsedError::invalid_request(write_op_message(index, rest).as_str(), hint);
    e.operation_index = Some(index);
    e
}

/// Checks one operation of a request.
fn validate_json_op(index: usize, json_op: &JsonOp) -> (r: Result<(), RipsedError>)
    ensures
        json_op_fault(index, *json_op) == match r {
            Ok(_) => None,
            Err(e) => Some(e@),
        },
{
    if let Err(e) = validate_op(index, &json_op.op) {
        return Err(e);
    }
    let (is_replace, is_delete) = match &json_op.op {
        Op::Replace { .. } => (true, false),
        Op::Delete { .. } => (false, true),
        _ => (false, false),
    };
    let multiline = match find_extra(&json_op.extra, "multiline") {
        Some(ExtraValue::Bool(b)) => *b,
        Some(_) => true,
        None => false,
    };
    if !is_replace && !is_delete && multiline {
        return Err(
            refuse_field(
                index,
                ": 'multiline' is not supported for this operation type.",
                "Multiline matching is only available for 'replace' and 'delete' operations.",
            ),
        );
    }
    let count = match find_extra(&json_op.extra, "count") {
        Some(ExtraValue::Text(s)) => !str_eq(s.as_str(), "all"),
        Some(_) => true,
        None => false,
    };
    if !is_replace && count {
        return Err(
            refuse_field(
                index,
                ": 'count' is not supported for this operation type.",
                "Replacement counts are only available for 'replace' operations.",
            ),
        );
    }
    if let Some(glob) = &json_op.glob {
        let mut place = owned("operation ");
        place.append(to_decimal(index).as_str());
        if let Err(e) = check_glob(
            "Invalid glob in ",
            "Fix the glob pattern '",
            glob.as_str(),
            place.as_str(),
        ) {
            return Err(e);
        }
    }
    Ok(())
}

/// What is said of a text that is no request.
pub open spec fn unreadable_request(detail: Seq<char>) -> ErrorView {
    error::invalid_request_error(
        "Failed to parse JSON request: "@ + detail,
        "Check that the JSON is well-formed and matches the ripsed request schema."@,
    )
}

/// The glob that holds for an operation: its own, or else that of the request.
pub open spec fn effective_glob(own: Option<Seq<char>>, global: Option<Seq<char>>) -> Option<Seq<char>> {
    match own {
        Some(g) => Some(g),
        None => global,
    }
}

impl JsonRequest {
    /// A request as it was read, or what stood in the way of reading it:
    /// hands on a request that is in order, and says why any other is refused.
    pub fn parse(read: Result<JsonRequest, String>) -> (r: Result<JsonRequest, RipsedError>)
        ensures
            match read {
                Ok(request) => match r {
                    Ok(same) => same == request && request_fault(request) is None,
                    Err(e) => request_fault(request) == Some(e@),
                },
                Err(detail) => r matches Err(e) && e@ == unreadable_request(detail@),
            },
    {
        match read {
            Ok(request) => match request.validate() {
                Ok(_) => Ok(request),
                Err(e) => Err(e),
            },
            Err(detail) => {
                let mut message = owned("Failed to parse JSON request: ");
                message.append(detail.as_str());
                Err(
                    RipsedError::invalid_request(
                        message.as_str(),
                        "Check that the JSON is well-formed and matches the ripsed request schema.",
                    ),
                )
            },
        }
    }

    /// Checks a request.
    pub fn validate(&self) -> (r: Result<(), RipsedError>)
        ensures
            request_fault(*self) == match r {
                Ok(_) => None,
                Err(e) => Some(e@),
            },
    {
        if !is_supported_version(self.version.as_str()) {
            let mut message = owned("Unknown version '");
            message.append(self.version.as_str());
            message.append("'. Supported versions: ");
            message.append(CURRENT_VERSION);
            let mut hint = owned("Set \"version\": \"");
            hint.append(CURRENT_VERSION);
            hint.append("\" in your request.");
            return Err(RipsedError::invalid_request(message.as_str(), hint.as_str()));
        }
        if self.undo.is_some() && self.operations.len() > 0 {
            return Err(
                RipsedError::invalid_request(
                    "Request cannot contain both 'operations' and 'undo'.",
                    "Send undo and operations as separate requests.",
                ),
            );
        }
        if self.undo.is_none() && self.operations.len() == 0 {
            return Err(
                RipsedError::invalid_request(
                    "Request must contain 'operations' or 'undo'.",
                    "Add at least one operation or an undo request.",
                ),
            );
        }
        if let Some(undo) = self.undo {
            if undo.last == 0 {
                return Err(
                    RipsedError::invalid_request(
                        "Undo 'last' must be at least 1.",
                        "Set \"last\" to the number of operations to undo (minimum 1).",
                    ),
                );
            }
        }
        let total = self.operations.len();
        let mut i: usize = 0;
        while i < total
            invariant
                total == self.operations@.len(),
                i <= total,
                shape_fault(*self) is None,
                ops_fault(self.operations@, 0) == ops_fault(self.operations@, i as int),
            decreases total - i,
        {
            if let Err(e) = validate_json_op(i, &self.operations[i]) {
                return Err(e);
            }
            i += 1;
        }
        if let Some(glob) = &self.options.glob {
            if let Err(e) = check_glob(
                "Invalid glob in ",
                "Fix the glob pattern '",
                glob.as_str(),
                "options",
            ) {
                return Err(e);
            }
        }
        if let Some(ignore) = &self.options.ignore {
            if let Err(e) = check_glob(
                "Invalid ignore glob in ",
                "Fix the ignore pattern '",
                ignore.as_str(),
                "options",
            ) {
                return Err(e);
            }
        }
        if self.options.line_range.is_some() && self.options.range.is_some() {
            return Err(
                RipsedError::invalid_request(
                    "Options cannot contain both 'line_range' and 'range'.",
                    "Choose lines by number or by pattern, not by both.",
                ),
            );
        }
        Ok(())
    }

    /// The operations with their effective globs, and the options. The glob
    /// of an operation takes precedence over that of the options.
    pub fn into_ops(self) -> (r: (Vec<(Op, Option<String>)>, OpOptions))
        ensures
            r.1 == self.options,
            r.0@.len() == self.operations@.len(),
            forall|k: int| #![trigger r.0@[k]]
                0 <= k < r.0@.len() ==> r.0@[k].0 == self.operations@[k].op && error::opt_view(
                    r.0@[k].1,
                ) == effective_glob(
                    error::opt_view(self.operations@[k].glob),
                    error::opt_view(self.options.glob),
                ),
    {
        let ghost given = self.operations@;
        let options = self.options;
        let mut out: Vec<(Op, Option<String>)> = Vec::new();
        for json_op in it: self.operations
            invariant
                it.seq() == given,
                out@.len() == it.index(),
                forall|k: int| #![trigger out@[k]]
                    0 <= k < out@.len() ==> out@[k].0 == given[k].op && error::opt_view(out@[k].1)
                        == effective_glob(
                        error::opt_view(given[k].glob),
                        error::opt_view(options.glob),
                    ),
        {
            let glob = match json_op.glob {
                Some(g) => Some(g),
                None => copy_opt(&options.glob),
            };
            out.push((json_op.op, glob));
        }
        (out, options)
    }
}

/// A request that is accepted either asks for operations or for an undo of
/// at least one record, never for both.
pub proof fn law_accepted_request_has_one_purpose(r: JsonRequest)
    requires
        request_fault(r) is None,
    ensures
        r.undo is Some <==> r.operations@.len() == 0,
        r.undo matches Some(u) ==> u.last >= 1,
{
}

/// Every operation of a request that is accepted is in order: it searches for
/// something, its pattern compiles, and what it writes is not empty.
pub proof fn law_accepted_operations_are_in_order(r: JsonRequest, k: int)
    requires
        request_fault(r) is None,
        0 <= k < r.operations@.len() <= usize::MAX,
    ensures
        json_op_fault(k as usize, r.operations@[k]) is None,
        r.operations@[k].op@.find.len() > 0,
        r.operations@[k].op@.regex ==> rex::regex_compile_error(r.operations@[k].op@.find) is None,
        content_of(r.operations@[k].op@.action) matches Some(c) ==> c.len() > 0,
        r.operations@[k].glob matches Some(g) ==> glob_fault(g@) is None,
{
    lemma_ops_in_order(r.operations@, 0, k);
}

proof fn lemma_ops_in_order(ops: Seq<JsonOp>, from: int, k: int)
    requires
        ops_fault(ops, from) is None,
        0 <= from <= k < ops.len(),
    ensures
        json_op_fault(k as usize, ops[k]) is None,
    decreases k - from,
{
    if from < k {
        lemma_ops_in_order(ops, from + 1, k);
    }
}

} // verus!
