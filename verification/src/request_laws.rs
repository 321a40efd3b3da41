//! Laws of requests, errors and streams: which requests are accepted, what an
//! error names, and how a stream keeps its line endings.
use vstd::prelude::*;

use crate::config;
use crate::config::LineView;
use crate::engine;
use crate::error;
use crate::error::ErrorCode;
use crate::operation::Action;
use crate::operation::Op;
use crate::operation::OpOptions;
use crate::operation::OpView;
use crate::operation::OptionsView;
use crate::operation::RangeView;
use crate::operation::ReplaceCount;
use crate::range;
use crate::request;
use crate::request::ExtraField;
use crate::request::ExtraValue;
use crate::request::JsonOp;
use crate::request::JsonRequest;
use crate::rex;
use crate::script;
use crate::stream;
use crate::stream::Terminator;

verus! {

// ---------------------------------------------------------------------------
// Requests
// ---------------------------------------------------------------------------

/// Whether an operation can be carried out: it looks for something, puts
/// something in, and counts in a way that makes sense.
pub open spec fn makes_sense(op: OpView) -> bool {
    &&& op.find.len() > 0
    &&& op.regex ==> rex::regex_compile_error(op.find) is None
    &&& match op.action {
        Action::InsertAfter { content } => content.len() > 0,
        Action::InsertBefore { content } => content.len() > 0,
        Action::ReplaceLine { content } => content.len() > 0,
        Action::Surround { prefix, suffix } => prefix.len() > 0 || suffix.len() > 0,
        Action::Replace { count, multiline, .. } => match count {
            ReplaceCount::Max(n) => n > 0,
            ReplaceCount::FirstPerLine => !multiline,
            _ => true,
        },
        _ => true,
    }
}

/// An operation is refused where it cannot be carried out, and nowhere else.
pub proof fn law_operation_is_refused(index: usize, op: OpView)
    ensures
        request::op_fault(index, op) is Some <==> !makes_sense(op),
        request::op_fault(index, op) matches Some(e) ==> e.code == ErrorCode::InvalidRequest
            || e.code == ErrorCode::InvalidRegex,
        request::op_fault(index, op) matches Some(e) ==> (e.code == ErrorCode::InvalidRegex
            ==> e.operation_index == Some(index) && e.pattern == Some(op.find) && op.regex
            && rex::regex_compile_error(op.find) is Some),
{
}

/// Whether the fields of an operation are ones that it has.
pub open spec fn has_its_fields(json_op: JsonOp) -> bool {
    let action = json_op.op@.action;
    &&& action is Replace || action is Delete || !request::wants_multiline(json_op.extra@)
    &&& action is Replace || !request::wants_count(json_op.extra@)
    &&& json_op.glob matches Some(g) ==> request::glob_fault(g@) is None
}

/// Whether the options of a request can be met: their patterns are sound, and
/// lines are chosen in one way at most.
pub open spec fn can_be_met(options: OptionsView) -> bool {
    &&& options.glob matches Some(g) ==> request::glob_fault(g) is None
    &&& options.ignore matches Some(g) ==> request::glob_fault(g) is None
    &&& options.line_range is None || options.range is None
}

/// A request is accepted where it is of version 1, asks for operations or for
/// an undo of at least one and not for both, and where each operation and the
/// options are in order; and nowhere else.
pub proof fn law_request_is_accepted(r: JsonRequest)
    requires
        r.operations@.len() <= usize::MAX,
    ensures
        request::request_fault(r) is None <==> {
            &&& r.version@ == "1"@
            &&& r.undo is Some <==> r.operations@.len() == 0
            &&& r.undo matches Some(u) ==> u.last > 0
            &&& forall|k: int| #![trigger r.operations@[k]]
                0 <= k < r.operations@.len() ==> makes_sense(r.operations@[k].op@)
                    && has_its_fields(r.operations@[k])
            &&& can_be_met(r.options@)
        },
{
    lemma_ops_are_accepted(r.operations@, 0);
}

/// Operations are accepted where each of them is in order.
proof fn lemma_ops_are_accepted(ops: Seq<JsonOp>, from: int)
    requires
        0 <= from <= ops.len(),
    ensures
        request::ops_fault(ops, from) is None <==> forall|k: int| #![trigger ops[k]]
            from <= k < ops.len() ==> makes_sense(ops[k].op@) && has_its_fields(ops[k]),
    decreases ops.len() - from,
{
    if from < ops.len() {
        law_operation_is_refused(from as usize, ops[from].op@);
        lemma_ops_are_accepted(ops, from + 1);
    }
}

/// An extra field counts as asked for by the first value under its name.
pub proof fn law_extra_field_is_found(
    extra: Seq<ExtraField>,
    field: ExtraField,
    rest: Seq<ExtraField>,
    name: Seq<char>,
)
    requires
        forall|k: int| #![trigger extra[k]] 0 <= k < extra.len() ==> extra[k].name@ != name,
        field.name@ == name,
    ensures
        request::extra_value(extra, name) is None,
        request::extra_value(extra + seq![field] + rest, name) == Some(field.value),
    decreases extra.len(),
{
    let all = extra + seq![field] + rest;
    if extra.len() > 0 {
        law_extra_field_is_found(extra.skip(1), field, rest, name);
        assert(all.skip(1) =~= extra.skip(1) + seq![field] + rest);
        assert(all[0] == extra[0]);
    } else {
        assert(all[0] == field);
    }
}

/// A field that asks for nothing is passed over: `multiline` with the value
/// false, `count` with the value `all`.
pub proof fn law_harmless_fields_are_passed_over(extra: Seq<ExtraField>, s: String)
    requires
        s@ == "all"@,
    ensures
        request::extra_value(extra, "multiline"@) is None ==> !request::wants_multiline(extra),
        request::extra_value(extra, "count"@) is None ==> !request::wants_count(extra),
        request::extra_value(extra, "multiline"@) == Some(ExtraValue::Bool(false))
            ==> !request::wants_multiline(extra),
        request::extra_value(extra, "multiline"@) == Some(ExtraValue::Bool(true))
            ==> request::wants_multiline(extra),
        request::extra_value(extra, "count"@) == Some(ExtraValue::Text(s)) ==> !request::wants_count(
            extra,
        ),
{
}

/// The pattern of an operation goes before that of the request.
pub proof fn law_own_pattern_goes_first(own: Option<Seq<char>>, global: Option<Seq<char>>)
    ensures
        own is Some ==> request::effective_glob(own, global) == own,
        own is None ==> request::effective_glob(own, global) == global,
{
}

/// A request is taken apart in order: each operation as it came, with its own
/// pattern or else that of the request, and the options as they came.
pub proof fn law_request_is_taken_apart(
    r: JsonRequest,
    parts: (Vec<(Op, Option<String>)>, OpOptions),
    k: int,
)
    requires
        call_ensures(JsonRequest::into_ops, (r,), parts),
        0 <= k < r.operations@.len(),
    ensures
        parts.1 == r.options,
        parts.0@.len() == r.operations@.len(),
        parts.0@[k].0 == r.operations@[k].op,
        r.operations@[k].glob matches Some(g) ==> (parts.0@[k].1 is Some && parts.0@[k].1->0@ == g@),
        r.operations@[k].glob is None ==> (parts.0@[k].1 is Some <==> r.options.glob is Some),
        r.operations@[k].glob is None && r.options.glob is Some ==> parts.0@[k].1->0@
            == r.options.glob->0@,
{
    assert(parts.0@[k].0 == parts.0@[k].0);
}

/// Text without brackets, braces and backslashes is a sound pattern, unless it
/// is empty.
pub proof fn law_plain_globs_are_sound(s: Seq<char>)
    requires
        forall|k: int| #![trigger s[k]] 0 <= k < s.len() ==> s[k] != '[' && s[k] != ']' && s[k] != '{'
            && s[k] != '}' && s[k] != '\\',
    ensures
        request::glob_fault(s) is None <==> s.len() > 0,
{
    lemma_plain_from(s, 0);
}

proof fn lemma_plain_from(s: Seq<char>, i: int)
    requires
        0 <= i <= s.len(),
        forall|k: int| #![trigger s[k]] 0 <= k < s.len() ==> s[k] != '[' && s[k] != ']' && s[k] != '{'
            && s[k] != '}' && s[k] != '\\',
    ensures
        request::glob_fault_from(s, i, false) is None,
    decreases s.len() - i,
{
    if i < s.len() {
        lemma_plain_from(s, i + 1);
    }
}

/// A bracket or brace that stands alone behind plain text makes a pattern
/// unsound; so does a brace that closes nothing.
pub proof fn law_lone_brackets_are_refused(s: Seq<char>, rest: Seq<char>, c: char)
    requires
        forall|k: int| #![trigger s[k]] 0 <= k < s.len() ==> s[k] != '[' && s[k] != ']' && s[k] != '{'
            && s[k] != '}' && s[k] != '\\',
        forall|k: int| #![trigger rest[k]] 0 <= k < rest.len() ==> rest[k] != '[' && rest[k] != ']'
            && rest[k] != '{' && rest[k] != '}' && rest[k] != '\\',
        c == '[' || c == '{' || c == '}',
    ensures
        request::glob_fault(s + seq![c] + rest) is Some,
        c == '[' ==> request::glob_fault(s + seq![c] + rest + seq![']']) is None,
        c == '{' ==> request::glob_fault(s + seq![c] + rest + seq!['}']) is None,
{
    let t = s + seq![c] + rest;
    lemma_plain_start(t, s.len() as int, 0);
    assert(t[s.len() as int] == c);
    assert forall|k: int| s.len() < k < t.len() implies #[trigger] t[k] != '[' && t[k] != ']' && t[k]
        != '{' && t[k] != '}' && t[k] != '\\' by {
        assert(t[k] == rest[k - s.len() - 1]);
    }
    if c == '[' {
        lemma_plain_tail(t, s.len() as int + 1, true);
    } else if c == '{' {
        lemma_brace_tail(t, s.len() as int + 1);
    }
    let close = if c == '[' {
        ']'
    } else {
        '}'
    };
    let u = t + seq![close];
    if c != '}' {
        lemma_plain_start(u, s.len() as int, 0);
        assert(u[s.len() as int] == c);
        assert(u[t.len() as int] == close);
        assert forall|k: int| s.len() < k < t.len() implies #[trigger] u[k] != '[' && u[k] != ']'
            && u[k] != '{' && u[k] != '}' && u[k] != '\\' by {
            assert(u[k] == t[k]);
        }
        lemma_closed(u, s.len() as int + 1, c);
        lemma_plain_tail(u, u.len() as int, false);
    }
    assert(s + seq![c] + rest + seq![']'] =~= t + seq![']']);
    assert(s + seq![c] + rest + seq!['}'] =~= t + seq!['}']);
}

/// Plain text is read up to its end.
proof fn lemma_plain_start(t: Seq<char>, n: int, i: int)
    requires
        0 <= i <= n <= t.len(),
        forall|k: int| #![trigger t[k]] 0 <= k < n ==> t[k] != '[' && t[k] != ']' && t[k] != '{'
            && t[k] != '}' && t[k] != '\\',
    ensures
        request::glob_fault_from(t, i, false) == request::glob_fault_from(t, n, false),
    decreases n - i,
{
    if i < n {
        lemma_plain_start(t, n, i + 1);
    }
}

/// Plain text at the end leaves a bracket as it is.
proof fn lemma_plain_tail(t: Seq<char>, i: int, in_bracket: bool)
    requires
        0 <= i <= t.len(),
        forall|k: int| #![trigger t[k]] i <= k < t.len() ==> t[k] != '[' && t[k] != ']' && t[k] != '{'
            && t[k] != '}' && t[k] != '\\',
    ensures
        request::glob_fault_from(t, i, in_bracket) is Some <==> in_bracket,
    decreases t.len() - i,
{
    if i < t.len() {
        lemma_plain_tail(t, i + 1, in_bracket);
    }
}

/// Plain text at the end closes no brace.
proof fn lemma_brace_tail(t: Seq<char>, i: int)
    requires
        0 <= i <= t.len(),
        forall|k: int| #![trigger t[k]] i <= k < t.len() ==> t[k] != '{' && t[k] != '}',
    ensures
        request::brace_close(t, i, 1) is None,
    decreases t.len() - i,
{
    if i < t.len() {
        lemma_brace_tail(t, i + 1);
    }
}

/// Plain text up to a closing mark at the end closes what was open.
proof fn lemma_closed(u: Seq<char>, i: int, c: char)
    requires
        0 <= i < u.len(),
        c == '[' || c == '{',
        c == '[' ==> u.last() == ']',
        c == '{' ==> u.last() == '}',
        forall|k: int| #![trigger u[k]] i <= k < u.len() - 1 ==> u[k] != '[' && u[k] != ']' && u[k]
            != '{' && u[k] != '}' && u[k] != '\\',
    ensures
        c == '[' ==> request::glob_fault_from(u, i, true) is None,
        c == '{' ==> request::brace_close(u, i, 1) == Some(u.len() as int),
    decreases u.len() - i,
{
    if i < u.len() - 1 {
        lemma_closed(u, i + 1, c);
    } else {
        assert(u[i] == u.last());
        lemma_plain_tail(u, u.len() as int, false);
    }
}

// ---------------------------------------------------------------------------
// Errors
// ---------------------------------------------------------------------------

/// Each error has its code and names what it is about.
pub proof fn law_errors_name_their_subject(
    index: usize,
    pattern: Seq<char>,
    path: Seq<char>,
    message: Seq<char>,
    hint: Seq<char>,
)
    ensures
        ({
            let e = error::invalid_request_error(message, hint);
            &&& e.code == ErrorCode::InvalidRequest
            &&& e.message == message
            &&& e.hint == hint
            &&& e.operation_index is None && e.pattern is None && e.path is None
        }),
        ({
            let e = error::invalid_regex_error(index, pattern, message);
            &&& e.code == ErrorCode::InvalidRegex
            &&& e.operation_index == Some(index)
            &&& e.pattern == Some(pattern)
            &&& e.path is None
        }),
        ({
            let e = error::write_failed_error(path, message);
            &&& e.code == ErrorCode::WriteFailed
            &&& e.path == Some(path)
            &&& e.operation_index is None && e.pattern is None
        }),
        ({
            let e = error::permission_denied_error(path);
            &&& e.code == ErrorCode::PermissionDenied
            &&& e.path == Some(path)
            &&& e.operation_index is None && e.pattern is None
        }),
        ({
            let e = error::internal_error_view(message);
            &&& e.code == ErrorCode::InternalError
            &&& e.message == message
            &&& e.path is None && e.operation_index is None && e.pattern is None
        }),
{
}

/// Codes that differ have names that differ.
pub proof fn law_code_names_differ(a: ErrorCode, b: ErrorCode)
    ensures
        error::code_name(a) == error::code_name(b) ==> a == b,
{
    reveal_strlit("invalid_regex");
    reveal_strlit("invalid_request");
    reveal_strlit("permission_denied");
    reveal_strlit("write_failed");
    reveal_strlit("internal_error");
    assert(error::code_name(ErrorCode::InvalidRegex).len() == 13);
    assert(error::code_name(ErrorCode::InvalidRequest).len() == 15);
    assert(error::code_name(ErrorCode::PermissionDenied).len() == 17);
    assert(error::code_name(ErrorCode::WriteFailed).len() == 12);
    assert(error::code_name(ErrorCode::InternalError).len() == 14);
}

/// A range is refused where one of its patterns does not compile, and the
/// error names that pattern; a range of lines is never refused.
pub proof fn law_range_is_refused(start: Seq<char>, end: Seq<char>, l: crate::operation::LineRange)
    ensures
        range::range_error(None) is None,
        range::range_error(Some(RangeView::Lines(l))) is None,
        range::range_error(Some(RangeView::Patterns { start, end })) is Some <==> (
        rex::regex_compile_error(start) is Some || rex::regex_compile_error(end) is Some),
        rex::regex_compile_error(start) is Some ==> range::range_error(
            Some(RangeView::Patterns { start, end }),
        )->0.pattern == Some(start),
        rex::regex_compile_error(start) is None && rex::regex_compile_error(end) is Some
            ==> range::range_error(Some(RangeView::Patterns { start, end }))->0.pattern == Some(end),
        range::range_error(Some(RangeView::Patterns { start, end })) matches Some(e) ==> e.code
            == ErrorCode::InvalidRegex && e.operation_index is None,
{
}

/// A stream is refused for an operation that needs the whole text, and where
/// its range is.
pub proof fn law_stream_is_refused(op: OpView, r: Option<RangeView>)
    ensures
        engine::stream_error(op, r) is Some <==> op.multiline() || range::range_error(r) is Some,
{
}

// ---------------------------------------------------------------------------
// Streams
// ---------------------------------------------------------------------------

/// A line of a stream is written back with the ending that it came with.
pub proof fn law_stream_keeps_the_ending(line: Seq<char>)
    requires
        !line.contains('\n'),
    ensures
        stream::terminator_of(line + seq!['\r', '\n']) == Terminator::CrLf,
        stream::line_content(line + seq!['\r', '\n']) == line,
        line.len() == 0 || line.last() != '\r' ==> stream::terminator_of(line + seq!['\n'])
            == Terminator::Lf,
        line.len() == 0 || line.last() != '\r' ==> stream::line_content(line + seq!['\n']) == line,
        stream::terminator_of(line) == Terminator::Missing,
        stream::line_content(line) == line,
        stream::terminated(seq![line], Terminator::CrLf) == line + seq!['\r', '\n'],
        stream::terminated(seq![line], Terminator::Lf) == line + seq!['\n'],
        stream::terminated(seq![line], Terminator::Missing) == line,
{
    let crlf = line + seq!['\r', '\n'];
    let lf = line + seq!['\n'];
    assert(crlf.last() == '\n' && crlf[crlf.len() - 2] == '\r');
    assert(lf.last() == '\n');
    if line.len() > 0 {
        assert(lf[lf.len() - 2] == line.last());
        assert(line.contains(line.last()));
    }
    assert(stream::line_content(crlf) =~= line);
    if line.len() == 0 || line.last() != '\r' {
        assert(stream::line_content(lf) =~= line);
    }
    assert(stream::line_content(line) =~= line);
    reveal_with_fuel(stream::terminated_prefix, 2);
    assert(stream::terminated(seq![line], Terminator::CrLf) =~= line + seq!['\r', '\n']);
    assert(stream::terminated(seq![line], Terminator::Lf) =~= line + seq!['\n']);
    assert(stream::terminated(seq![line], Terminator::Missing) =~= line);
}

/// Where one line becomes two, each ends as the one did; where the last line
/// had no ending, a newline parts the two.
pub proof fn law_stream_parts_lines(a: Seq<char>, b: Seq<char>)
    ensures
        stream::terminated(seq![a, b], Terminator::CrLf) == a + seq!['\r', '\n'] + b + seq![
            '\r',
            '\n',
        ],
        stream::terminated(seq![a, b], Terminator::Lf) == a + seq!['\n'] + b + seq!['\n'],
        stream::terminated(seq![a, b], Terminator::Missing) == a + seq!['\n'] + b,
        forall|t: Terminator| #[trigger]
            stream::terminated(Seq::<Seq<char>>::empty(), t) == Seq::<char>::empty(),
{
    reveal_with_fuel(stream::terminated_prefix, 3);
    let ls = seq![a, b];
    assert(stream::terminated(ls, Terminator::CrLf) =~= a + seq!['\r', '\n'] + b + seq!['\r', '\n']);
    assert(stream::terminated(ls, Terminator::Lf) =~= a + seq!['\n'] + b + seq!['\n']);
    assert(stream::terminated(ls, Terminator::Missing) =~= a + seq!['\n'] + b);
}

/// A stream keeps its first fifty changes, and all where there are no more.
pub proof fn law_stream_keeps_the_first_changes(cs: Seq<crate::diff::ChangeView>, k: int)
    requires
        0 <= k < stream::collected(cs).len(),
    ensures
        stream::collected(cs)[k] == cs[k],
        cs.len() <= 50 ==> stream::collected(cs).len() == cs.len(),
        cs.len() > 50 ==> stream::collected(cs).len() == 50,
{
}

// ---------------------------------------------------------------------------
// Lines of settings
// ---------------------------------------------------------------------------

/// A line of settings is a name, an equals sign and a value; white space
/// around them and what follows a number sign do not count.
pub proof fn law_setting_is_read(name: Seq<char>, value: Seq<char>, note: Seq<char>)
    requires
        name.len() > 0,
        name[0] != '[',
        !name.contains('='),
        !name.contains('#'),
        !value.contains('#'),
        script::trim(name + seq!['='] + value) == name + seq!['='] + value,
    ensures
        config::line_says(name + seq!['='] + value) == LineView::Setting(
            script::trim(name),
            script::trim(value),
        ),
        config::line_says(name + seq!['='] + value + seq!['#'] + note) == LineView::Setting(
            script::trim(name),
            script::trim(value),
        ),
{
    let s = name + seq!['='] + value;
    let t = s + seq!['#'] + note;
    assert forall|k: int| 0 <= k < s.len() implies s[k] != '#' by {
        if k < name.len() {
            assert(name.contains(name[k]));
            assert(s[k] == name[k]);
        } else if k > name.len() {
            assert(value.contains(value[k - name.len() - 1]));
            assert(s[k] == value[k - name.len() - 1]);
        }
    }
    lemma_first_char(s, '#', s.len() as int, 0);
    assert(s.take(s.len() as int) =~= s);
    assert(t[s.len() as int] == '#');
    assert forall|k: int| 0 <= k < s.len() implies t[k] != '#' by {
        assert(t[k] == s[k]);
    }
    lemma_first_char(t, '#', s.len() as int, 0);
    assert(t.take(s.len() as int) =~= s);
    assert(s[name.len() as int] == '=');
    assert forall|k: int| 0 <= k < name.len() implies s[k] != '=' by {
        assert(name.contains(name[k]));
        assert(s[k] == name[k]);
    }
    lemma_first_char(s, '=', name.len() as int, 0);
    assert(s.take(name.len() as int) =~= name);
    assert(s.skip(name.len() as int + 1) =~= value);
    assert(s[0] == name[0]);
}

/// The first place of a character is where it stands with none before it.
proof fn lemma_first_char(s: Seq<char>, c: char, n: int, i: int)
    requires
        0 <= i <= n <= s.len(),
        forall|k: int| #![trigger s[k]] 0 <= k < n ==> s[k] != c,
        n < s.len() ==> s[n] == c,
    ensures
        config::first_char(s, c, i) == n,
    decreases n - i,
{
    if i < n {
        lemma_first_char(s, c, n, i + 1);
    }
}

/// A line in square brackets starts a section.
pub proof fn law_section_is_read(name: Seq<char>)
    requires
        !name.contains('#'),
        script::trim(seq!['['] + name + seq![']']) == seq!['['] + name + seq![']'],
    ensures
        config::line_says(seq!['['] + name + seq![']']) == LineView::Section(script::trim(name)),
{
    let s = seq!['['] + name + seq![']'];
    assert forall|k: int| 0 <= k < s.len() implies s[k] != '#' by {
        if 0 < k < s.len() - 1 {
            assert(name.contains(name[k - 1]));
            assert(s[k] == name[k - 1]);
        }
    }
    lemma_first_char(s, '#', s.len() as int, 0);
    assert(s.take(s.len() as int) =~= s);
    assert(s[0] == '[' && s.last() == ']');
    assert(s.subrange(1, s.len() - 1) =~= name);
}

/// Settings are taken line by line: each is of the section above it, and the
/// first line that is wrong is the one that is told.
pub proof fn law_settings_are_taken_in_order(ls: Seq<Seq<char>>, n: int)
    requires
        0 < n <= ls.len(),
        config::config_after(ls, n - 1) is Ok,
    ensures
        ({
            let before = config::config_after(ls, n - 1)->Ok_0;
            let after = config::config_after(ls, n);
            match config::line_says(ls[n - 1]) {
                LineView::Blank => after is Ok && after->Ok_0 == before,
                LineView::Section(s) => after is Ok && after->Ok_0 == (s, before.1),
                LineView::Malformed => after is Err,
                LineView::Setting(key, value) => match config::with_setting(
                    before.1,
                    before.0,
                    key,
                    value,
                ) {
                    Some(c) => after is Ok && after->Ok_0 == (before.0, c),
                    None => after is Err,
                },
            }
        }),
{
}

} // verus!
