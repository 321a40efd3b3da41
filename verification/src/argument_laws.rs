//! Laws of what is asked for: each flag, field and setting reaches the
//! operation and the options that it is for.
use vstd::prelude::*;

use crate::cli;
use crate::cli::Cli;
use crate::config::Config;
use crate::edit_laws;
use crate::engine;
use crate::matcher::MatcherView;
use crate::operation::{Action, LineRange, Op, OpOptions, OpView, OptionsView, RangeView, ReplaceCount};
use crate::pipe;
use crate::strings;

verus! {

// ---------------------------------------------------------------------------
// Operations and options
// ---------------------------------------------------------------------------

/// An operation is about the pattern that it holds, with the flags that it
/// holds, and does what it is.
pub proof fn law_operation_says_its_fields(op: Op)
    ensures
        match op {
            Op::Replace { find, replace, regex, case_insensitive, multiline, count } => op@ == (
            OpView {
                find: find@,
                regex,
                case_insensitive,
                action: Action::Replace { replace: replace@, multiline, count },
            }),
            Op::Delete { find, regex, case_insensitive, multiline } => op@ == (OpView {
                find: find@,
                regex,
                case_insensitive,
                action: Action::Delete { multiline },
            }),
            Op::InsertAfter { find, content, regex, case_insensitive } => op@ == (OpView {
                find: find@,
                regex,
                case_insensitive,
                action: Action::InsertAfter { content: content@ },
            }),
            Op::InsertBefore { find, content, regex, case_insensitive } => op@ == (OpView {
                find: find@,
                regex,
                case_insensitive,
                action: Action::InsertBefore { content: content@ },
            }),
            Op::ReplaceLine { find, content, regex, case_insensitive } => op@ == (OpView {
                find: find@,
                regex,
                case_insensitive,
                action: Action::ReplaceLine { content: content@ },
            }),
            Op::Transform { find, mode, regex, case_insensitive } => op@ == (OpView {
                find: find@,
                regex,
                case_insensitive,
                action: Action::Transform { mode },
            }),
            Op::Surround { find, prefix, suffix, regex, case_insensitive } => op@ == (OpView {
                find: find@,
                regex,
                case_insensitive,
                action: Action::Surround { prefix: prefix@, suffix: suffix@ },
            }),
            Op::Indent { find, amount, use_tabs, regex, case_insensitive } => op@ == (OpView {
                find: find@,
                regex,
                case_insensitive,
                action: Action::Indent { amount, use_tabs },
            }),
            Op::Dedent { find, amount, use_tabs, regex, case_insensitive } => op@ == (OpView {
                find: find@,
                regex,
                case_insensitive,
                action: Action::Dedent { amount, use_tabs },
            }),
        },
        op@.multiline() <==> (op matches Op::Replace { multiline: true, .. }) || (op matches
            Op::Delete { multiline: true, .. }),
{
}

/// Options say what their fields say. Their range is that of the patterns,
/// where there are any, and else that of the line numbers.
pub proof fn law_options_say_their_fields(o: OpOptions)
    ensures
        o@.dry_run == o.dry_run,
        o@.gitignore == o.gitignore,
        o@.backup == o.backup,
        o@.atomic == o.atomic,
        o@.hidden == o.hidden,
        o@.max_depth == o.max_depth,
        o@.line_range == o.line_range,
        o@.record_undo == o.record_undo,
        o.root matches Some(s) ==> o@.root == Some(s@),
        o.root is None ==> o@.root is None,
        o.glob matches Some(s) ==> o@.glob == Some(s@),
        o.glob is None ==> o@.glob is None,
        o.ignore matches Some(s) ==> o@.ignore == Some(s@),
        o.ignore is None ==> o@.ignore is None,
        o.range matches Some(p) ==> o@.range_spec() == Some(
            RangeView::Patterns { start: p.start_pattern@, end: p.end_pattern@ },
        ),
        o.range is None && (o.line_range matches Some(l)) ==> o@.range_spec() == Some(
            RangeView::Lines(o.line_range->0),
        ),
        o.range is None && o.line_range is None ==> o@.range_spec() is None,
{
}

// ---------------------------------------------------------------------------
// The command line
// ---------------------------------------------------------------------------

/// The range that arguments ask for: that of the patterns where it is given,
/// and else that of the line numbers.
pub open spec fn asked_range(cli: Cli) -> Option<RangeView> {
    if cli.range is Some {
        Some(
            RangeView::Patterns {
                start: cli.range->0.start_pattern@,
                end: cli.range->0.end_pattern@,
            },
        )
    } else if cli.line_range is Some {
        Some(RangeView::Lines(cli.line_range->0))
    } else {
        None
    }
}

/// Files and pipes are edited in the range that the arguments ask for.
pub proof fn law_range_is_the_one_asked_for(
    cli: Cli,
    config: Config,
    glob: Option<Seq<char>>,
)
    ensures
        cli::options_of_cli(cli, config, glob).range_spec() == asked_range(cli),
        pipe::range_of(cli) == asked_range(cli),
{
}

/// With line numbers on the command line, every change to a file, and every one
/// to a pipe, is of a line that they name.
pub proof fn law_other_lines_of_files_stay(
    cli: Cli,
    config: Config,
    glob: Option<Seq<char>>,
    text: Seq<char>,
    op: OpView,
    m: MatcherView,
    context_lines: int,
    k: int,
)
    requires
        cli.range is None,
        cli.line_range is Some,
        edit_laws::fits(op, m),
        !op.multiline(),
    ensures
        ({
            let r = cli.line_range->0;
            &&& engine::apply_result(
                text,
                op,
                m,
                cli::options_of_cli(cli, config, glob).range_spec(),
                context_lines,
            ) matches Ok(out) && (0 <= k < out.changes.len() ==> r.start <= out.changes[k].line && (
            r.end matches Some(e) ==> out.changes[k].line <= e))
            &&& engine::apply_result(text, op, m, pipe::range_of(cli), context_lines) matches Ok(out)
                && (0 <= k < out.changes.len() ==> r.start <= out.changes[k].line && (r.end matches
                Some(e) ==> out.changes[k].line <= e))
        }),
{
    edit_laws::law_changes_are_in_range(text, op, m, cli.line_range->0, context_lines, k);
}

/// Each flag and setting reaches the options of a run: a flag of the command
/// line decides, and a setting where the command line says nothing.
pub proof fn law_flags_reach_the_options(cli: Cli, config: Config, glob: Option<Seq<char>>)
    ensures
        ({
            let o = cli::options_of_cli(cli, config, glob);
            &&& o.dry_run <==> cli.dry_run
            &&& o.record_undo <==> !cli.no_undo
            &&& o.hidden <==> cli.hidden
            &&& o.backup <==> cli.backup || config.defaults.backup
            &&& cli.no_gitignore ==> !o.gitignore
            &&& !cli.no_gitignore ==> (o.gitignore <==> config.defaults.gitignore)
            &&& cli.max_depth is Some ==> o.max_depth == cli.max_depth
            &&& cli.max_depth is None ==> o.max_depth == config.defaults.max_depth
            &&& o.glob == glob
            &&& cli.ignore_pattern is Some ==> o.ignore == Some(cli.ignore_pattern->0@)
            &&& cli.ignore_pattern is None ==> o.ignore is None
            &&& o.line_range == cli.line_range
            &&& !o.atomic
            &&& o.root is None
        }),
{
}

/// Whatever the operation, it looks for the given pattern with the flags of the
/// command line.
pub proof fn law_flags_reach_the_pattern(cli: Cli, find: Seq<char>)
    ensures
        cli::op_of_cli(cli, find).find == find,
        cli::op_of_cli(cli, find).regex <==> cli.regex,
        cli::op_of_cli(cli, find).case_insensitive <==> cli.case_insensitive,
{
}

/// How many of the flags that choose an operation are given.
pub open spec fn chosen_ops(cli: Cli) -> int {
    let one = |b: bool|
        if b {
            1int
        } else {
            0int
        };
    one(cli.delete) + one(cli.after is Some) + one(cli.before is Some) + one(
        cli.replace_line is Some,
    ) + one(cli.transform is Some) + one(cli.surround is Some) + one(cli.indent is Some) + one(
        cli.dedent is Some,
    )
}

/// The operation is the one whose flag is given, with its values; without any
/// it is a replace, by nothing where no replacement is given.
pub proof fn law_flags_choose_the_operation(cli: Cli, find: Seq<char>)
    requires
        chosen_ops(cli) <= 1,
    ensures
        ({
            let action = cli::op_of_cli(cli, find).action;
            &&& cli.delete ==> action == (Action::Delete { multiline: cli.multiline })
            &&& cli.after is Some ==> action == (Action::InsertAfter { content: cli.after->0@ })
            &&& cli.before is Some ==> action == (Action::InsertBefore { content: cli.before->0@ })
            &&& cli.replace_line is Some ==> action == (Action::ReplaceLine {
                content: cli.replace_line->0@,
            })
            &&& cli.transform is Some ==> action == (Action::Transform { mode: cli.transform->0 })
            &&& cli.surround is Some ==> action == (Action::Surround {
                prefix: cli.surround->0@[0]@,
                suffix: cli.surround->0@[1]@,
            })
            &&& cli.indent is Some ==> action == (Action::Indent {
                amount: cli.indent->0,
                use_tabs: false,
            })
            &&& cli.dedent is Some ==> action == (Action::Dedent {
                amount: cli.dedent->0,
                use_tabs: false,
            })
            &&& chosen_ops(cli) == 0 ==> {
                &&& action matches Action::Replace { replace, multiline, .. }
                &&& multiline == cli.multiline
                &&& cli.replace is Some ==> replace == cli.replace->0@
                &&& cli.replace is None ==> replace.len() == 0
            }
        }),
{
}

/// The first that is given of delete, after, before, replace-line, transform,
/// surround, indent and dedent is the operation.
pub proof fn law_first_flag_chooses(cli: Cli, find: Seq<char>)
    ensures
        ({
            let action = cli::op_of_cli(cli, find).action;
            &&& action is Delete <==> cli.delete
            &&& action is InsertAfter <==> cli.after is Some && !cli.delete
            &&& action is InsertBefore <==> cli.before is Some && !cli.delete && cli.after is None
            &&& action is ReplaceLine <==> cli.replace_line is Some && !cli.delete && cli.after
                is None && cli.before is None
            &&& action is Transform <==> cli.transform is Some && !cli.delete && cli.after is None
                && cli.before is None && cli.replace_line is None
            &&& action is Surround <==> cli.surround is Some && !cli.delete && cli.after is None
                && cli.before is None && cli.replace_line is None && cli.transform is None
            &&& action is Indent <==> cli.indent is Some && !cli.delete && cli.after is None
                && cli.before is None && cli.replace_line is None && cli.transform is None
                && cli.surround is None
            &&& action is Dedent <==> cli.dedent is Some && !cli.delete && cli.after is None
                && cli.before is None && cli.replace_line is None && cli.transform is None
                && cli.surround is None && cli.indent is None
            &&& action is Replace <==> chosen_ops(cli) == 0
            &&& action matches Action::Delete { multiline } ==> multiline == cli.multiline
            &&& action matches Action::InsertAfter { content } ==> content == cli.after->0@
            &&& action matches Action::InsertBefore { content } ==> content == cli.before->0@
            &&& action matches Action::ReplaceLine { content } ==> content == cli.replace_line->0@
            &&& action matches Action::Transform { mode } ==> mode == cli.transform->0
            &&& action matches Action::Surround { prefix, suffix } ==> prefix
                == cli.surround->0@[0]@ && suffix == cli.surround->0@[1]@
            &&& action matches Action::Indent { amount, use_tabs } ==> amount == cli.indent->0
                && !use_tabs
            &&& action matches Action::Dedent { amount, use_tabs } ==> amount == cli.dedent->0
                && !use_tabs
        }),
{
}

/// How many occurrences a replace touches: the first of each line, the first of
/// the file, so many of the file, or all of them.
pub proof fn law_flags_limit_a_replace(cli: Cli, find: Seq<char>)
    ensures
        cli::op_of_cli(cli, find).action matches Action::Replace { count, .. } ==> {
            &&& cli.first ==> count == ReplaceCount::FirstPerLine
            &&& !cli.first && cli.first_in_file ==> count == ReplaceCount::FirstInFile
            &&& !cli.first && !cli.first_in_file && cli.max_replacements is Some ==> count
                == ReplaceCount::Max(cli.max_replacements->0)
            &&& !cli.first && !cli.first_in_file && cli.max_replacements is None ==> count
                == ReplaceCount::All
        },
{
}

// ---------------------------------------------------------------------------
// Values
// ---------------------------------------------------------------------------

/// A line range that is written with two numbers has them, one written with a
/// number and a colon, or with a number alone, has no end; and each such text
/// is read unless a number is 0, too large, or the first exceeds the second.
pub proof fn law_line_ranges_are_read(start: usize, end: usize)
    ensures
        ({
            let a = strings::decimal(start as nat);
            let b = strings::decimal(end as nat);
            &&& cli::line_range_of(a + seq![':'] + b) is Ok <==> 1 <= start <= end
            &&& 1 <= start <= end ==> cli::line_range_of(a + seq![':'] + b) == Ok::<
                LineRange,
                Seq<char>,
            >(LineRange { start, end: Some(end) })
            &&& cli::line_range_of(a + seq![':']) is Ok <==> start >= 1
            &&& start >= 1 ==> cli::line_range_of(a + seq![':']) == Ok::<LineRange, Seq<char>>(
                LineRange { start, end: None },
            )
            &&& cli::line_range_of(a) is Ok <==> start >= 1
            &&& start >= 1 ==> cli::line_range_of(a) == Ok::<LineRange, Seq<char>>(
                LineRange { start, end: None },
            )
        }),
{
    let a = strings::decimal(start as nat);
    let b = strings::decimal(end as nat);
    lemma_decimal(start);
    lemma_decimal(end);
    let s = a + seq![':'] + b;
    lemma_colon_at(s, 0, a.len() as int);
    assert(s.take(a.len() as int) =~= a);
    assert(s.skip(a.len() as int + 1) =~= b);
    let t = a + seq![':'];
    lemma_colon_at(t, 0, a.len() as int);
    assert(t.take(a.len() as int) =~= a);
    assert(t.skip(a.len() as int + 1).len() == 0);
    lemma_no_colon(a, 0);
}

proof fn lemma_colon_at(s: Seq<char>, i: int, c: int)
    requires
        0 <= i <= c < s.len(),
        s[c] == ':',
        forall|k: int| i <= k < c ==> s[k] != ':',
    ensures
        cli::first_colon(s, i) == c,
    decreases c - i,
{
    if i < c {
        lemma_colon_at(s, i + 1, c);
    }
}

proof fn lemma_no_colon(s: Seq<char>, i: int)
    requires
        0 <= i <= s.len(),
        forall|k: int| 0 <= k < s.len() ==> s[k] != ':',
    ensures
        cli::first_colon(s, i) == s.len(),
    decreases s.len() - i,
{
    if i < s.len() {
        lemma_no_colon(s, i + 1);
    }
}

/// A number in decimal is digits, and reads as the number.
proof fn lemma_decimal(n: usize)
    ensures
        strings::decimal(n as nat).len() > 0,
        forall|k: int| 0 <= k < strings::decimal(n as nat).len() ==> '0' <= #[trigger] strings::decimal(
            n as nat,
        )[k] <= '9',
        strings::usize_value(strings::decimal(n as nat)) == Some(n),
{
    strings::law_decimal_reads_back(n as nat);
    let d = strings::decimal(n as nat);
    assert(strings::all_digits(d));
    assert(d[0] != '+');
}

/// A limit on replacements, and one on depth, is read from a number unless it
/// is 0, and from nothing else.
pub proof fn law_limits_are_positive(n: usize)
    ensures
        n >= 1 ==> cli::max_replacements_of(strings::decimal(n as nat)) == Ok::<usize, Seq<char>>(
            n,
        ),
        n >= 1 ==> cli::max_depth_of(strings::decimal(n as nat)) == Ok::<usize, Seq<char>>(n),
        n == 0 ==> cli::max_replacements_of(strings::decimal(n as nat)) is Err,
        n == 0 ==> cli::max_depth_of(strings::decimal(n as nat)) is Err,
        forall|s: Seq<char>|
            s.len() > 0 && !('0' <= s[0] <= '9') && s[0] != '+' ==> (
            #[trigger] cli::max_replacements_of(s) is Err),
        forall|s: Seq<char>|
            s.len() > 0 && !('0' <= s[0] <= '9') && s[0] != '+' ==> (#[trigger] cli::max_depth_of(s)
                is Err),
{
    lemma_decimal(n);
}

} // verus!
