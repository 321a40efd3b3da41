//! Laws of scripts: comments, the order of flags, and scripts put together.
use vstd::prelude::*;

use crate::error;
use crate::lines;
use crate::operation;
use crate::operation::{Action, ReplaceCount};
use crate::script;
use crate::script::{ArgsView, QuoteState, ScriptOpView, TokenMode, TokenState};
use crate::strings;
use crate::transform;

verus! {

// ---------------------------------------------------------------------------
// Comments
// ---------------------------------------------------------------------------

/// What a text ends with that is no whitespace stays where it is.
proof fn lemma_trim_end_is_prefix(s: Seq<char>)
    ensures
        script::trim_end(s).len() <= s.len(),
        script::trim_end(s) == s.take(script::trim_end(s).len() as int),
    decreases s.len(),
{
    if s.len() > 0 && strings::char_whitespace(s.last()) {
        lemma_trim_end_is_prefix(s.drop_last());
        let k = script::trim_end(s).len() as int;
        assert(s.drop_last().take(k) =~= s.take(k));
    } else {
        assert(s.take(s.len() as int) =~= s);
    }
}

/// The scan for a comment sees no further than it has come.
proof fn lemma_quote_at_prefix(line: Seq<char>, k: int, i: int)
    requires
        0 <= i <= k <= line.len(),
    ensures
        script::quote_at(line.take(k), i) == script::quote_at(line, i),
    decreases i,
{
    if i > 0 {
        lemma_quote_at_prefix(line, k, i - 1);
        assert(line.take(k)[i - 1] == line[i - 1]);
    }
}

/// A line in which no comment starts is left as it is.
proof fn lemma_no_comment(line: Seq<char>, i: int)
    requires
        0 <= i <= line.len(),
        forall|j: int| i <= j < line.len() ==> !#[trigger] script::comment_at(line, j),
    ensures
        script::without_comment(line, i) == line,
    decreases line.len() - i,
{
    if i < line.len() {
        assert(!script::comment_at(line, i));
        lemma_no_comment(line, i + 1);
    }
}

/// Where the comment of a line starts: before it there is none.
proof fn lemma_comment_found(line: Seq<char>, i: int) -> (c: int)
    requires
        0 <= i <= line.len(),
    ensures
        i <= c <= line.len(),
        forall|j: int| i <= j < c ==> !#[trigger] script::comment_at(line, j),
        c < line.len() ==> script::without_comment(line, i) == script::trim_end(line.take(c)),
        c == line.len() ==> script::without_comment(line, i) == line,
    decreases line.len() - i,
{
    if i >= line.len() {
        i
    } else if script::comment_at(line, i) {
        i
    } else {
        lemma_comment_found(line, i + 1)
    }
}

/// Stripping a comment leaves the start of the line, stripping again changes
/// nothing, and a line without a `#` is left as it is.
pub proof fn law_stripping_is_idempotent(line: Seq<char>)
    ensures
        ({
            let r = script::without_comment(line, 0);
            &&& r.len() <= line.len()
            &&& r == line.take(r.len() as int)
            &&& script::without_comment(r, 0) == r
            &&& !line.contains('#') ==> r == line
        }),
{
    let c = lemma_comment_found(line, 0);
    let r = script::without_comment(line, 0);
    if c < line.len() {
        lemma_trim_end_is_prefix(line.take(c));
        let k = r.len() as int;
        assert(line.take(c).take(k) =~= line.take(k));
        assert forall|j: int| 0 <= j < r.len() implies !#[trigger] script::comment_at(r, j) by {
            lemma_quote_at_prefix(line, k, j);
            assert(r[j] == line[j]);
            assert(!script::comment_at(line, j));
        }
        lemma_no_comment(r, 0);
        if !line.contains('#') {
            lemma_nothing_to_strip(line, 0);
        }
    } else {
        assert(line.take(line.len() as int) =~= line);
    }
}

/// A line without a `#` is left as it is.
proof fn lemma_nothing_to_strip(line: Seq<char>, i: int)
    requires
        0 <= i <= line.len(),
        !line.contains('#'),
    ensures
        script::without_comment(line, i) == line,
    decreases line.len() - i,
{
    if i < line.len() {
        assert(line.contains(line[i]));
        lemma_nothing_to_strip(line, i + 1);
    }
}

// ---------------------------------------------------------------------------
// Flags and positional arguments
// ---------------------------------------------------------------------------

/// Whether a token that takes no value is a flag, known or not.
pub open spec fn is_bare_flag(token: Seq<char>) -> bool {
    token.len() > 0 && token[0] == '-'
}

/// The flags among the tokens from `i` on, each followed by its value if it
/// takes one.
pub open spec fn flags_from(tokens: Seq<Seq<char>>, i: int) -> Seq<Seq<char>>
    decreases tokens.len() - i,
{
    if i < 0 || i >= tokens.len() {
        Seq::empty()
    } else if script::takes_value(tokens[i]) {
        if i + 1 >= tokens.len() {
            seq![tokens[i]]
        } else {
            seq![tokens[i], tokens[i + 1]] + flags_from(tokens, i + 2)
        }
    } else if is_bare_flag(tokens[i]) {
        seq![tokens[i]] + flags_from(tokens, i + 1)
    } else {
        flags_from(tokens, i + 1)
    }
}

/// The positional arguments among the tokens from `i` on.
pub open spec fn positionals_from(tokens: Seq<Seq<char>>, i: int) -> Seq<Seq<char>>
    decreases tokens.len() - i,
{
    if i < 0 || i >= tokens.len() {
        Seq::empty()
    } else if script::takes_value(tokens[i]) {
        if i + 1 >= tokens.len() {
            Seq::empty()
        } else {
            positionals_from(tokens, i + 2)
        }
    } else if is_bare_flag(tokens[i]) {
        positionals_from(tokens, i + 1)
    } else {
        seq![tokens[i]] + positionals_from(tokens, i + 1)
    }
}

/// Sorted arguments with other positional ones.
pub open spec fn with_positional(r: Result<ArgsView, Seq<char>>, p: Seq<Seq<char>>) -> Result<
    ArgsView,
    Seq<char>,
> {
    match r {
        Ok(a) => Ok(ArgsView { positional: p, ..a }),
        Err(e) => Err(e),
    }
}

/// The tokens that stand before do not matter.
proof fn lemma_args_shift(x: Seq<Seq<char>>, rest: Seq<Seq<char>>, j: int, a: ArgsView)
    requires
        0 <= j <= rest.len(),
    ensures
        script::args_from(x + rest, x.len() + j, a) == script::args_from(rest, j, a),
    decreases rest.len() - j,
{
    let all = x + rest;
    if j < rest.len() {
        assert(all[x.len() + j] == rest[j]);
        if script::takes_value(rest[j]) {
            if j + 1 < rest.len() {
                assert(all[x.len() + j + 1] == rest[j + 1]);
                if let Ok(b) = script::with_value(a, rest[j], rest[j + 1]) {
                    lemma_args_shift(x, rest, j + 2, b);
                }
            }
        } else {
            if let Ok(b) = script::with_flag(a, rest[j]) {
                lemma_args_shift(x, rest, j + 1, b);
            }
        }
    }
}

/// A flag adds nothing to the positional arguments, and does not hang on them.
proof fn lemma_flag_keeps_positional(a: ArgsView, flag: Seq<char>, p: Seq<Seq<char>>)
    requires
        is_bare_flag(flag),
    ensures
        script::with_flag(ArgsView { positional: p, ..a }, flag) == with_positional(
            script::with_flag(a, flag),
            p,
        ),
        script::with_flag(a, flag) matches Ok(b) ==> b.positional == a.positional,
{
}

proof fn lemma_value_keeps_positional(
    a: ArgsView,
    flag: Seq<char>,
    value: Seq<char>,
    p: Seq<Seq<char>>,
)
    ensures
        script::with_value(ArgsView { positional: p, ..a }, flag, value) == with_positional(
            script::with_value(a, flag, value),
            p,
        ),
        script::with_value(a, flag, value) matches Ok(b) ==> b.positional == a.positional,
{
}

/// What flags come to does not hang on the positional arguments.
proof fn lemma_flags_alone(tokens: Seq<Seq<char>>, i: int, a: ArgsView, p: Seq<Seq<char>>)
    requires
        0 <= i <= tokens.len(),
    ensures
        ({
            let flags = flags_from(tokens, i);
            script::args_from(flags, 0, ArgsView { positional: p, ..a }) == with_positional(
                script::args_from(flags, 0, a),
                p,
            )
        }),
    decreases tokens.len() - i,
{
    let flags = flags_from(tokens, i);
    let other = ArgsView { positional: p, ..a };
    if i < tokens.len() {
        if script::takes_value(tokens[i]) {
            if i + 1 < tokens.len() {
                let rest = flags_from(tokens, i + 2);
                let x = seq![tokens[i], tokens[i + 1]];
                assert(flags[0] == tokens[i] && flags[1] == tokens[i + 1]);
                lemma_value_keeps_positional(a, tokens[i], tokens[i + 1], p);
                if let Ok(b) = script::with_value(a, tokens[i], tokens[i + 1]) {
                    lemma_args_shift(x, rest, 0, b);
                    lemma_args_shift(x, rest, 0, ArgsView { positional: p, ..b });
                    lemma_flags_alone(tokens, i + 2, b, p);
                }
            } else {
                assert(flags[0] == tokens[i]);
            }
        } else if is_bare_flag(tokens[i]) {
            let rest = flags_from(tokens, i + 1);
            let x = seq![tokens[i]];
            assert(flags[0] == tokens[i]);
            lemma_flag_keeps_positional(a, tokens[i], p);
            if let Ok(b) = script::with_flag(a, tokens[i]) {
                lemma_args_shift(x, rest, 0, b);
                lemma_args_shift(x, rest, 0, ArgsView { positional: p, ..b });
                lemma_flags_alone(tokens, i + 1, b, p);
            }
        } else {
            lemma_flags_alone(tokens, i + 1, a, p);
        }
    }
}

/// Arguments come to what their flags come to, with the positional ones added
/// in order.
proof fn lemma_args_split(tokens: Seq<Seq<char>>, i: int, a: ArgsView)
    requires
        0 <= i <= tokens.len(),
    ensures
        script::args_from(tokens, i, a) == with_positional(
            script::args_from(flags_from(tokens, i), 0, a),
            a.positional + positionals_from(tokens, i),
        ),
    decreases tokens.len() - i,
{
    let flags = flags_from(tokens, i);
    let p = a.positional + positionals_from(tokens, i);
    if i >= tokens.len() {
        assert(p =~= a.positional);
    } else if script::takes_value(tokens[i]) {
        if i + 1 < tokens.len() {
            let rest = flags_from(tokens, i + 2);
            assert(flags[0] == tokens[i] && flags[1] == tokens[i + 1]);
            lemma_value_keeps_positional(a, tokens[i], tokens[i + 1], p);
            if let Ok(b) = script::with_value(a, tokens[i], tokens[i + 1]) {
                lemma_args_shift(seq![tokens[i], tokens[i + 1]], rest, 0, b);
                lemma_args_split(tokens, i + 2, b);
            }
        } else {
            assert(flags[0] == tokens[i]);
        }
    } else if is_bare_flag(tokens[i]) {
        let rest = flags_from(tokens, i + 1);
        assert(flags[0] == tokens[i]);
        lemma_flag_keeps_positional(a, tokens[i], p);
        if let Ok(b) = script::with_flag(a, tokens[i]) {
            lemma_args_shift(seq![tokens[i]], rest, 0, b);
            lemma_args_split(tokens, i + 1, b);
        }
    } else {
        lemma_bare_flags(tokens[i]);
        let b = ArgsView { positional: a.positional.push(tokens[i]), ..a };
        assert(script::with_flag(a, tokens[i]) == Ok::<ArgsView, Seq<char>>(b));
        lemma_args_split(tokens, i + 1, b);
        lemma_flags_alone(tokens, i + 1, a, b.positional);
        assert(b.positional + positionals_from(tokens, i + 1) =~= p);
    }
}

/// Every flag that takes no value starts with a hyphen.
proof fn lemma_bare_flags(token: Seq<char>)
    requires
        !is_bare_flag(token),
    ensures
        token != "-e"@ && token != "--regex"@,
        token != "-i"@ && token != "--case-insensitive"@,
        token != "-U"@ && token != "--multiline"@,
        token != "--first"@ && token != "--first-in-file"@,
        token != "--use-tabs"@,
{
    reveal_strlit("-e");
    reveal_strlit("--regex");
    reveal_strlit("-i");
    reveal_strlit("--case-insensitive");
    reveal_strlit("-U");
    reveal_strlit("--multiline");
    reveal_strlit("--first");
    reveal_strlit("--first-in-file");
    reveal_strlit("--use-tabs");
}

/// Flags may stand anywhere among the positional arguments of a script line:
/// two lines with the same operation, the same flags in the same order and the
/// same positional arguments in the same order say the same.
pub proof fn law_flags_stand_anywhere(l1: Seq<char>, l2: Seq<char>)
    requires
        script::tokens_of(l1).len() > 0,
        script::tokens_of(l2).len() > 0,
        script::tokens_of(l1)[0] == script::tokens_of(l2)[0],
        flags_from(script::tokens_of(l1), 1) == flags_from(script::tokens_of(l2), 1),
        positionals_from(script::tokens_of(l1), 1) == positionals_from(script::tokens_of(l2), 1),
    ensures
        script::line_op(l1) == script::line_op(l2),
{
    lemma_args_split(script::tokens_of(l1), 1, script::no_args());
    lemma_args_split(script::tokens_of(l2), 1, script::no_args());
}

// ---------------------------------------------------------------------------
// What the tokens of a line ask for
// ---------------------------------------------------------------------------

/// Whether a token is the name of a flag that is followed by a value.
pub open spec fn wants_a_value(token: Seq<char>) -> bool {
    ||| token == "--max-replacements"@
    ||| token == "--glob"@
    ||| token == "--mode"@
    ||| token == "--prefix"@
    ||| token == "--suffix"@
    ||| token == "--amount"@
}

/// Whether token `i` is the value of the flag before it. Token 0 is the name of
/// the operation.
pub open spec fn is_value(tokens: Seq<Seq<char>>, i: int) -> bool
    decreases i,
{
    i > 1 && wants_a_value(tokens[i - 1]) && !is_value(tokens, i - 1)
}

/// Whether token `i` is a given flag: it stands behind the name and is no value.
pub open spec fn flag_at(tokens: Seq<Seq<char>>, i: int, flag: Seq<char>) -> bool {
    1 <= i < tokens.len() && !is_value(tokens, i) && tokens[i] == flag
}

/// Whether one of the tokens is a given flag, in its short or its long form.
pub open spec fn has_flag(tokens: Seq<Seq<char>>, short: Seq<char>, long: Seq<char>) -> bool {
    exists|i: int| #![trigger tokens[i]] flag_at(tokens, i, short) || flag_at(tokens, i, long)
}

/// Whether `value` is that of the last of the flags of a name, and `None` where
/// there is no such flag.
pub open spec fn last_value_is(
    tokens: Seq<Seq<char>>,
    flag: Seq<char>,
    value: Option<Seq<char>>,
) -> bool {
    match value {
        None => forall|i: int| #![trigger tokens[i]] !flag_at(tokens, i, flag),
        Some(v) => exists|i: int| #![trigger tokens[i]]
            {
                &&& flag_at(tokens, i, flag)
                &&& i + 1 < tokens.len()
                &&& tokens[i + 1] == v
                &&& forall|j: int| #![trigger tokens[j]] j > i ==> !flag_at(tokens, j, flag)
            },
    }
}

/// Whether token `i` says how many occurrences are replaced.
pub open spec fn counts_at(tokens: Seq<Seq<char>>, i: int) -> bool {
    ||| flag_at(tokens, i, "--first"@)
    ||| flag_at(tokens, i, "--first-in-file"@)
    ||| flag_at(tokens, i, "--max-replacements"@)
}

/// Whether `count` is what the last of the tokens that say so asks for.
pub open spec fn last_count_is(tokens: Seq<Seq<char>>, count: ReplaceCount) -> bool {
    match count {
        ReplaceCount::All => forall|i: int| #![trigger tokens[i]] !counts_at(tokens, i),
        _ => exists|i: int| #![trigger tokens[i]]
            {
                &&& counts_at(tokens, i)
                &&& forall|j: int| #![trigger tokens[j]] j > i ==> !counts_at(tokens, j)
                &&& count == ReplaceCount::FirstPerLine <==> tokens[i] == "--first"@
                &&& count == ReplaceCount::FirstInFile <==> tokens[i] == "--first-in-file"@
                &&& count matches ReplaceCount::Max(n) ==> i + 1 < tokens.len() && n >= 1
                    && strings::usize_value(tokens[i + 1]) == Some(n)
            },
    }
}

/// The positional arguments among the first `n` tokens: those behind the name
/// that are neither flags nor values of flags.
pub open spec fn positionals(tokens: Seq<Seq<char>>, n: int) -> Seq<Seq<char>>
    decreases n,
{
    if n <= 1 {
        Seq::empty()
    } else if is_value(tokens, n - 1) || (tokens[n - 1].len() > 0 && tokens[n - 1][0] == '-') {
        positionals(tokens, n - 1)
    } else {
        positionals(tokens, n - 1).push(tokens[n - 1])
    }
}

/// What sorted arguments say of the first `n` tokens.
spec fn says(tokens: Seq<Seq<char>>, n: int, a: ArgsView) -> bool {
    let seen = tokens.take(n);
    &&& a.regex == has_flag(seen, "-e"@, "--regex"@)
    &&& a.case_insensitive == has_flag(seen, "-i"@, "--case-insensitive"@)
    &&& a.multiline == has_flag(seen, "-U"@, "--multiline"@)
    &&& a.use_tabs == has_flag(seen, "--use-tabs"@, "--use-tabs"@)
    &&& a.positional == positionals(seen, n)
    &&& last_value_is(seen, "--glob"@, a.glob)
    &&& last_value_is(seen, "--mode"@, a.mode)
    &&& last_value_is(seen, "--prefix"@, a.prefix)
    &&& last_value_is(seen, "--suffix"@, a.suffix)
    &&& last_value_is(seen, "--amount"@, a.amount)
    &&& last_count_is(seen, a.count)
}

/// The flags differ from one another.
proof fn lemma_flags_differ()
    ensures
        "-e"@.len() == 2 && "-e"@[0] == '-' && "-e"@[1] == 'e',
        "-i"@.len() == 2 && "-i"@[0] == '-' && "-i"@[1] == 'i',
        "-U"@.len() == 2 && "-U"@[0] == '-' && "-U"@[1] == 'U',
        "--regex"@.len() == 7 && "--regex"@[0] == '-' && "--regex"@[2] == 'r',
        "--case-insensitive"@.len() == 18 && "--case-insensitive"@[0] == '-',
        "--multiline"@.len() == 11 && "--multiline"@[0] == '-',
        "--first"@.len() == 7 && "--first"@[0] == '-' && "--first"@[2] == 'f',
        "--first-in-file"@.len() == 15 && "--first-in-file"@[0] == '-',
        "--use-tabs"@.len() == 10 && "--use-tabs"@[0] == '-',
        "--max-replacements"@.len() == 18 && "--max-replacements"@[0] == '-'
            && "--max-replacements"@[2] == 'm',
        "--case-insensitive"@[2] == 'c',
        "--glob"@.len() == 6 && "--glob"@[0] == '-' && "--glob"@[2] == 'g',
        "--mode"@.len() == 6 && "--mode"@[0] == '-' && "--mode"@[2] == 'm',
        "--prefix"@.len() == 8 && "--prefix"@[0] == '-' && "--prefix"@[2] == 'p',
        "--suffix"@.len() == 8 && "--suffix"@[0] == '-' && "--suffix"@[2] == 's',
        "--amount"@.len() == 8 && "--amount"@[0] == '-' && "--amount"@[2] == 'a',
{
    reveal_strlit("-e");
    reveal_strlit("--regex");
    reveal_strlit("-i");
    reveal_strlit("--case-insensitive");
    reveal_strlit("-U");
    reveal_strlit("--multiline");
    reveal_strlit("--first");
    reveal_strlit("--first-in-file");
    reveal_strlit("--use-tabs");
    reveal_strlit("--max-replacements");
    reveal_strlit("--glob");
    reveal_strlit("--mode");
    reveal_strlit("--prefix");
    reveal_strlit("--suffix");
    reveal_strlit("--amount");
}

/// Tokens that follow do not matter to whether one is a value.
proof fn lemma_value_prefix(tokens: Seq<Seq<char>>, n: int, i: int)
    requires
        0 <= i < n <= tokens.len(),
    ensures
        is_value(tokens.take(n), i) == is_value(tokens, i),
    decreases i,
{
    if i > 1 {
        lemma_value_prefix(tokens, n, i - 1);
        assert(tokens.take(n)[i - 1] == tokens[i - 1]);
    }
}

proof fn lemma_flag_prefix(tokens: Seq<Seq<char>>, n: int, i: int, flag: Seq<char>)
    requires
        n <= tokens.len(),
    ensures
        0 <= i < n ==> flag_at(tokens.take(n), i, flag) == flag_at(tokens, i, flag),
        i < 0 || (i >= n && n >= 0) ==> !flag_at(tokens.take(n), i, flag),
{
    if 0 <= i < n {
        lemma_value_prefix(tokens, n, i);
        assert(tokens.take(n)[i] == tokens[i]);
    }
}

/// A flag is among one token more just where it was before or is that token.
proof fn lemma_has_flag_grows(
    tokens: Seq<Seq<char>>,
    n: int,
    short: Seq<char>,
    long: Seq<char>,
)
    requires
        0 <= n < tokens.len(),
    ensures
        has_flag(tokens.take(n + 1), short, long) == (has_flag(tokens.take(n), short, long)
            || flag_at(tokens, n, short) || flag_at(tokens, n, long)),
{
    let was = tokens.take(n);
    let now = tokens.take(n + 1);
    if has_flag(now, short, long) {
        let i = choose|i: int| #![trigger now[i]] flag_at(now, i, short) || flag_at(now, i, long);
        lemma_flag_prefix(tokens, n + 1, i, short);
        lemma_flag_prefix(tokens, n + 1, i, long);
        lemma_flag_prefix(tokens, n, i, short);
        lemma_flag_prefix(tokens, n, i, long);
        if i < n {
            assert(was[i] == now[i]);
        }
    }
    if has_flag(was, short, long) {
        let i = choose|i: int| #![trigger was[i]] flag_at(was, i, short) || flag_at(was, i, long);
        lemma_flag_prefix(tokens, n + 1, i, short);
        lemma_flag_prefix(tokens, n + 1, i, long);
        lemma_flag_prefix(tokens, n, i, short);
        lemma_flag_prefix(tokens, n, i, long);
        assert(was[i] == now[i]);
    }
    if flag_at(tokens, n, short) || flag_at(tokens, n, long) {
        lemma_flag_prefix(tokens, n + 1, n, short);
        lemma_flag_prefix(tokens, n + 1, n, long);
        assert(now[n] == tokens[n]);
    }
}

/// Tokens that are no flag of a name do not matter to its value.
proof fn lemma_value_stays(
    tokens: Seq<Seq<char>>,
    n: int,
    k: int,
    flag: Seq<char>,
    value: Option<Seq<char>>,
)
    requires
        0 <= n <= k <= tokens.len(),
        last_value_is(tokens.take(n), flag, value),
        forall|i: int| n <= i < k ==> !#[trigger] flag_at(tokens, i, flag),
    ensures
        last_value_is(tokens.take(k), flag, value),
{
    let was = tokens.take(n);
    let now = tokens.take(k);
    assert forall|i: int| #![trigger now[i]] flag_at(now, i, flag) implies flag_at(was, i, flag) by {
        lemma_flag_prefix(tokens, k, i, flag);
        lemma_flag_prefix(tokens, n, i, flag);
        if i >= n {
            assert(!flag_at(tokens, i, flag));
        }
    }
    match value {
        None => {
            assert forall|i: int| #![trigger now[i]] !flag_at(now, i, flag) by {
                if flag_at(now, i, flag) {
                    assert(flag_at(was, i, flag));
                    assert(was[i] == was[i]);
                }
            }
        },
        Some(v) => {
            let i = choose|i: int| #![trigger was[i]]
                {
                    &&& flag_at(was, i, flag)
                    &&& i + 1 < was.len()
                    &&& was[i + 1] == v
                    &&& forall|j: int| #![trigger was[j]] j > i ==> !flag_at(was, j, flag)
                };
            lemma_flag_prefix(tokens, k, i, flag);
            lemma_flag_prefix(tokens, n, i, flag);
            assert(now[i] == was[i] && now[i + 1] == was[i + 1]);
            assert forall|j: int| #![trigger now[j]] j > i implies !flag_at(now, j, flag) by {
                if flag_at(now, j, flag) {
                    assert(flag_at(was, j, flag));
                    assert(was[j] == was[j]);
                }
            }
        },
    }
}

/// A flag with its value is the last of its name.
proof fn lemma_value_set(tokens: Seq<Seq<char>>, n: int, flag: Seq<char>)
    requires
        0 <= n,
        n + 2 <= tokens.len(),
        flag_at(tokens, n, flag),
        wants_a_value(flag),
    ensures
        last_value_is(tokens.take(n + 2), flag, Some(tokens[n + 1])),
{
    let now = tokens.take(n + 2);
    lemma_flag_prefix(tokens, n + 2, n, flag);
    assert(now[n] == tokens[n] && now[n + 1] == tokens[n + 1]);
    assert forall|j: int| #![trigger now[j]] j > n implies !flag_at(now, j, flag) by {
        if j == n + 1 {
            lemma_value_prefix(tokens, n + 2, n + 1);
            assert(is_value(tokens, n + 1));
        }
    }
}

/// Tokens that say nothing of a count do not matter to it.
proof fn lemma_count_stays(tokens: Seq<Seq<char>>, n: int, k: int, count: ReplaceCount)
    requires
        0 <= n <= k <= tokens.len(),
        last_count_is(tokens.take(n), count),
        forall|i: int| n <= i < k ==> !#[trigger] counts_at(tokens, i),
    ensures
        last_count_is(tokens.take(k), count),
{
    let was = tokens.take(n);
    let now = tokens.take(k);
    assert forall|i: int| #![trigger now[i]] counts_at(now, i) implies counts_at(was, i) && 0 <= i
        < n by {
        lemma_flag_prefix(tokens, k, i, "--first"@);
        lemma_flag_prefix(tokens, n, i, "--first"@);
        lemma_flag_prefix(tokens, k, i, "--first-in-file"@);
        lemma_flag_prefix(tokens, n, i, "--first-in-file"@);
        lemma_flag_prefix(tokens, k, i, "--max-replacements"@);
        lemma_flag_prefix(tokens, n, i, "--max-replacements"@);
        if i >= n {
            assert(!counts_at(tokens, i));
        }
    }
    if count == ReplaceCount::All {
        assert forall|i: int| #![trigger now[i]] !counts_at(now, i) by {
            if counts_at(now, i) {
                assert(counts_at(was, i));
                assert(was[i] == was[i]);
            }
        }
    } else {
        let i = choose|i: int| #![trigger was[i]]
            {
                &&& counts_at(was, i)
                &&& forall|j: int| #![trigger was[j]] j > i ==> !counts_at(was, j)
                &&& count == ReplaceCount::FirstPerLine <==> was[i] == "--first"@
                &&& count == ReplaceCount::FirstInFile <==> was[i] == "--first-in-file"@
                &&& count matches ReplaceCount::Max(n) ==> i + 1 < was.len() && n >= 1
                    && strings::usize_value(was[i + 1]) == Some(n)
            };
        lemma_flag_prefix(tokens, k, i, "--first"@);
        lemma_flag_prefix(tokens, n, i, "--first"@);
        lemma_flag_prefix(tokens, k, i, "--first-in-file"@);
        lemma_flag_prefix(tokens, n, i, "--first-in-file"@);
        lemma_flag_prefix(tokens, k, i, "--max-replacements"@);
        lemma_flag_prefix(tokens, n, i, "--max-replacements"@);
        assert(now[i] == was[i]);
        assert forall|j: int| #![trigger now[j]] j > i implies !counts_at(now, j) by {
            if counts_at(now, j) {
                assert(counts_at(was, j));
                assert(was[j] == was[j]);
            }
        }
        if i + 1 < was.len() {
            assert(now[i + 1] == was[i + 1]);
        }
    }
}

/// A token that says something of a count is the last that does.
proof fn lemma_count_set(tokens: Seq<Seq<char>>, n: int, k: int, count: ReplaceCount)
    requires
        0 <= n < k <= tokens.len(),
        k == n + 1 || k == n + 2 && is_value(tokens, n + 1),
        counts_at(tokens, n),
        count != ReplaceCount::All,
        count == ReplaceCount::FirstPerLine <==> tokens[n] == "--first"@,
        count == ReplaceCount::FirstInFile <==> tokens[n] == "--first-in-file"@,
        count matches ReplaceCount::Max(m) ==> k == n + 2 && m >= 1 && strings::usize_value(
            tokens[n + 1],
        ) == Some(m),
    ensures
        last_count_is(tokens.take(k), count),
{
    let now = tokens.take(k);
    lemma_flag_prefix(tokens, k, n, "--first"@);
    lemma_flag_prefix(tokens, k, n, "--first-in-file"@);
    lemma_flag_prefix(tokens, k, n, "--max-replacements"@);
    assert(now[n] == tokens[n]);
    assert(counts_at(now, n));
    assert forall|j: int| #![trigger now[j]] j > n implies !counts_at(now, j) by {
        if j == n + 1 && k == n + 2 {
            lemma_value_prefix(tokens, k, n + 1);
        }
    }
    if k == n + 2 {
        assert(now[n + 1] == tokens[n + 1]);
    }
}

proof fn lemma_positionals_prefix(tokens: Seq<Seq<char>>, n: int, k: int)
    requires
        0 <= k <= n <= tokens.len(),
    ensures
        positionals(tokens.take(n), k) == positionals(tokens, k),
    decreases k,
{
    if k > 1 {
        lemma_positionals_prefix(tokens, n, k - 1);
        lemma_value_prefix(tokens, n, k - 1);
        assert(tokens.take(n)[k - 1] == tokens[k - 1]);
    }
}

/// One flag without a value, or one positional argument, more.
#[verifier::rlimit(30)]
proof fn lemma_says_flag(tokens: Seq<Seq<char>>, n: int, a: ArgsView, b: ArgsView)
    requires
        1 <= n < tokens.len(),
        says(tokens, n, a),
        !is_value(tokens, n),
        !wants_a_value(tokens[n]),
        script::with_flag(a, tokens[n]) == Ok::<ArgsView, Seq<char>>(b),
    ensures
        says(tokens, n + 1, b),
{
    lemma_flags_differ();
    let t = tokens[n];
    lemma_has_flag_grows(tokens, n, "-e"@, "--regex"@);
    lemma_has_flag_grows(tokens, n, "-i"@, "--case-insensitive"@);
    lemma_has_flag_grows(tokens, n, "-U"@, "--multiline"@);
    lemma_has_flag_grows(tokens, n, "--use-tabs"@, "--use-tabs"@);
    lemma_positionals_prefix(tokens, n, n);
    lemma_positionals_prefix(tokens, n + 1, n + 1);
    lemma_value_stays(tokens, n, n + 1, "--glob"@, a.glob);
    lemma_value_stays(tokens, n, n + 1, "--mode"@, a.mode);
    lemma_value_stays(tokens, n, n + 1, "--prefix"@, a.prefix);
    lemma_value_stays(tokens, n, n + 1, "--suffix"@, a.suffix);
    lemma_value_stays(tokens, n, n + 1, "--amount"@, a.amount);
    if t == "--first"@ || t == "--first-in-file"@ {
        assert(counts_at(tokens, n));
        lemma_count_set(tokens, n, n + 1, b.count);
    } else {
        assert(!counts_at(tokens, n));
        lemma_count_stays(tokens, n, n + 1, a.count);
    }
}

/// One flag with its value more.
#[verifier::rlimit(60)]
proof fn lemma_says_value(tokens: Seq<Seq<char>>, n: int, a: ArgsView, b: ArgsView)
    requires
        1 <= n,
        n + 1 < tokens.len(),
        says(tokens, n, a),
        !is_value(tokens, n),
        wants_a_value(tokens[n]),
        script::with_value(a, tokens[n], tokens[n + 1]) == Ok::<ArgsView, Seq<char>>(b),
    ensures
        says(tokens, n + 2, b),
{
    lemma_flags_differ();
    let t = tokens[n];
    assert(is_value(tokens, n + 1));
    lemma_has_flag_grows(tokens, n, "-e"@, "--regex"@);
    lemma_has_flag_grows(tokens, n, "-i"@, "--case-insensitive"@);
    lemma_has_flag_grows(tokens, n, "-U"@, "--multiline"@);
    lemma_has_flag_grows(tokens, n, "--use-tabs"@, "--use-tabs"@);
    lemma_has_flag_grows(tokens, n + 1, "-e"@, "--regex"@);
    lemma_has_flag_grows(tokens, n + 1, "-i"@, "--case-insensitive"@);
    lemma_has_flag_grows(tokens, n + 1, "-U"@, "--multiline"@);
    lemma_has_flag_grows(tokens, n + 1, "--use-tabs"@, "--use-tabs"@);
    lemma_positionals_prefix(tokens, n, n);
    lemma_positionals_prefix(tokens, n + 2, n + 2);
    assert(positionals(tokens, n + 2) == positionals(tokens, n + 1));
    assert(positionals(tokens, n + 1) == positionals(tokens, n));
    if t == "--glob"@ {
        lemma_value_set(tokens, n, "--glob"@);
    } else {
        lemma_value_stays(tokens, n, n + 2, "--glob"@, a.glob);
    }
    if t == "--mode"@ {
        lemma_value_set(tokens, n, "--mode"@);
    } else {
        lemma_value_stays(tokens, n, n + 2, "--mode"@, a.mode);
    }
    if t == "--prefix"@ {
        lemma_value_set(tokens, n, "--prefix"@);
    } else {
        lemma_value_stays(tokens, n, n + 2, "--prefix"@, a.prefix);
    }
    if t == "--suffix"@ {
        lemma_value_set(tokens, n, "--suffix"@);
    } else {
        lemma_value_stays(tokens, n, n + 2, "--suffix"@, a.suffix);
    }
    if t == "--amount"@ {
        lemma_value_set(tokens, n, "--amount"@);
    } else {
        lemma_value_stays(tokens, n, n + 2, "--amount"@, a.amount);
    }
    assert(!counts_at(tokens, n + 1));
    if t == "--max-replacements"@ {
        assert(counts_at(tokens, n));
        lemma_count_set(tokens, n, n + 2, b.count);
    } else {
        assert(!counts_at(tokens, n));
        lemma_count_stays(tokens, n, n + 2, a.count);
    }
}

proof fn lemma_args_say(tokens: Seq<Seq<char>>, i: int, a: ArgsView)
    requires
        1 <= i <= tokens.len(),
        says(tokens, i, a),
        !is_value(tokens, i),
    ensures
        script::args_from(tokens, i, a) matches Ok(b) ==> says(tokens, tokens.len() as int, b),
    decreases tokens.len() - i,
{
    if i < tokens.len() {
        if script::takes_value(tokens[i]) {
            if i + 1 < tokens.len() {
                if let Ok(b) = script::with_value(a, tokens[i], tokens[i + 1]) {
                    lemma_says_value(tokens, i, a, b);
                    assert(is_value(tokens, i + 1));
                    assert(!is_value(tokens, i + 2));
                    lemma_args_say(tokens, i + 2, b);
                }
            }
        } else {
            if let Ok(b) = script::with_flag(a, tokens[i]) {
                lemma_says_flag(tokens, i, a, b);
                assert(!is_value(tokens, i + 1));
                lemma_args_say(tokens, i + 1, b);
            }
        }
    }
}

proof fn lemma_line_says(tokens: Seq<Seq<char>>)
    requires
        tokens.len() > 0,
    ensures
        script::args_from(tokens, 1, script::no_args()) matches Ok(a) ==> says(
            tokens,
            tokens.len() as int,
            a,
        ),
{
    let none = script::no_args();
    assert(says(tokens, 1, none)) by {
        assert(positionals(tokens.take(1), 1) =~= Seq::<Seq<char>>::empty());
    }
    lemma_args_say(tokens, 1, none);
}

/// Whichever operation a script line names, its pattern is matched in either
/// case just where one of the tokens behind the name that is not the value of a
/// flag is `-i` or `--case-insensitive`, and is a regular expression just where
/// one is `-e` or `--regex`. The pattern is the first positional argument.
pub proof fn law_line_flags_reach_the_pattern(line: Seq<char>)
    ensures
        script::line_op(line) matches Ok(o) ==> {
            let tokens = script::tokens_of(line);
            let given = positionals(tokens, tokens.len() as int);
            &&& tokens.len() > 0
            &&& o.op.case_insensitive <==> has_flag(tokens, "-i"@, "--case-insensitive"@)
            &&& o.op.regex <==> has_flag(tokens, "-e"@, "--regex"@)
            &&& given.len() > 0
            &&& o.op.find == given[0]
            &&& last_value_is(tokens, "--glob"@, o.glob)
        },
{
    let tokens = script::tokens_of(line);
    if tokens.len() > 0 {
        lemma_line_says(tokens);
        assert(tokens.take(tokens.len() as int) =~= tokens);
    }
}

/// Whether the name of an operation is that of what it does.
pub open spec fn names(action: Action, name: Seq<char>) -> bool {
    match action {
        Action::Replace { .. } => name == "replace"@,
        Action::Delete { .. } => name == "delete"@,
        Action::InsertAfter { .. } => name == "insert_after"@,
        Action::InsertBefore { .. } => name == "insert_before"@,
        Action::ReplaceLine { .. } => name == "replace_line"@,
        Action::Transform { .. } => name == "transform"@,
        Action::Surround { .. } => name == "surround"@,
        Action::Indent { .. } => name == "indent"@,
        Action::Dedent { .. } => name == "dedent"@,
    }
}

/// A script line does what its name says, with what its flags and positional
/// arguments say.
pub proof fn law_line_does_what_it_names(line: Seq<char>)
    ensures
        script::line_op(line) matches Ok(o) ==> {
            let tokens = script::tokens_of(line);
            let given = positionals(tokens, tokens.len() as int);
            &&& tokens.len() > 0
            &&& names(o.op.action, transform::str_lower(tokens[0]))
            &&& match o.op.action {
                Action::Replace { replace, multiline, count } => {
                    &&& given.len() >= 2
                    &&& replace == given[1]
                    &&& multiline <==> has_flag(tokens, "-U"@, "--multiline"@)
                    &&& last_count_is(tokens, count)
                },
                Action::Delete { multiline } => {
                    multiline <==> has_flag(tokens, "-U"@, "--multiline"@)
                },
                Action::InsertAfter { content } => given.len() >= 2 && content == given[1],
                Action::InsertBefore { content } => given.len() >= 2 && content == given[1],
                Action::ReplaceLine { content } => given.len() >= 2 && content == given[1],
                Action::Transform { mode } => {
                    exists|name: Seq<char>|
                        {
                            &&& last_value_is(tokens, "--mode"@, Some(name))
                            &&& #[trigger] operation::mode_of_name(name) == Some(mode)
                        }
                },
                Action::Surround { prefix, suffix } => {
                    &&& last_value_is(tokens, "--prefix"@, Some(prefix))
                    &&& last_value_is(tokens, "--suffix"@, Some(suffix))
                },
                Action::Indent { amount, use_tabs } => {
                    &&& use_tabs <==> has_flag(tokens, "--use-tabs"@, "--use-tabs"@)
                    &&& amount_is(tokens, amount)
                },
                Action::Dedent { amount, use_tabs } => {
                    &&& use_tabs <==> has_flag(tokens, "--use-tabs"@, "--use-tabs"@)
                    &&& amount_is(tokens, amount)
                },
            }
        },
{
    let tokens = script::tokens_of(line);
    if tokens.len() > 0 {
        lemma_line_says(tokens);
        assert(tokens.take(tokens.len() as int) =~= tokens);
        if let Ok(o) = script::line_op(line) {
            let a = script::args_from(tokens, 1, script::no_args())->Ok_0;
            if o.op.action is Transform {
                assert(operation::mode_of_name(a.mode->0) == Some(o.op.action->mode));
            }
            if a.amount is Some {
                assert(last_value_is(tokens, "--amount"@, Some(a.amount->0)));
                assert(strings::usize_value(a.amount->0) is Some || !(o.op.action is Indent
                    || o.op.action is Dedent));
            }
        }
    }
}

/// Whether an amount is that of the last such flag, and 4 where there is none.
pub open spec fn amount_is(tokens: Seq<Seq<char>>, amount: usize) -> bool {
    ||| last_value_is(tokens, "--amount"@, None) && amount == 4
    ||| exists|value: Seq<char>|
        last_value_is(tokens, "--amount"@, Some(value)) && #[trigger] strings::usize_value(value)
            == Some(amount)
}

/// Whether token `i` can stand where it stands: the value of a flag, a flag
/// that is known and has its value where it takes one, or a positional argument.
pub open spec fn is_in_order(tokens: Seq<Seq<char>>, i: int) -> bool {
    let t = tokens[i];
    ||| is_value(tokens, i)
    ||| wants_a_value(t) && i + 1 < tokens.len() && (t == "--max-replacements"@ ==> (
    strings::usize_value(tokens[i + 1]) matches Some(n) && n >= 1))
    ||| t == "-e"@
    ||| t == "--regex"@
    ||| t == "-i"@
    ||| t == "--case-insensitive"@
    ||| t == "-U"@
    ||| t == "--multiline"@
    ||| t == "--first"@
    ||| t == "--first-in-file"@
    ||| t == "--use-tabs"@
    ||| t.len() == 0
    ||| t[0] != '-'
}

/// How many positional arguments an operation needs, and whether there is such
/// an operation.
pub open spec fn needs(name: Seq<char>, n: int) -> bool {
    ||| n >= 2 && (name == "replace"@ || name == "insert_after"@ || name == "insert_before"@ || name
        == "replace_line"@)
    ||| n >= 1 && (name == "delete"@ || name == "transform"@ || name == "surround"@ || name
        == "indent"@ || name == "dedent"@)
}

/// Whether the flags of a line are those of an operation.
pub open spec fn flags_fit(name: Seq<char>, tokens: Seq<Seq<char>>) -> bool {
    &&& has_flag(tokens, "-U"@, "--multiline"@) ==> name == "replace"@ || name == "delete"@
    &&& !last_count_is(tokens, ReplaceCount::All) ==> name == "replace"@
    &&& !(has_flag(tokens, "-U"@, "--multiline"@) && last_count_is(
        tokens,
        ReplaceCount::FirstPerLine,
    ))
    &&& name == "transform"@ ==> exists|mode: Seq<char>|
        last_value_is(tokens, "--mode"@, Some(mode)) && #[trigger] operation::mode_of_name(mode)
            is Some
    &&& name == "surround"@ ==> !last_value_is(tokens, "--prefix"@, None) && !last_value_is(
        tokens,
        "--suffix"@,
        None,
    )
    &&& name == "indent"@ || name == "dedent"@ ==> exists|amount: usize|
        #[trigger] amount_is(tokens, amount)
}

proof fn lemma_in_order(tokens: Seq<Seq<char>>, i: int, a: ArgsView)
    requires
        1 <= i <= tokens.len(),
        !is_value(tokens, i),
    ensures
        script::args_from(tokens, i, a) is Ok <==> forall|k: int|
            i <= k < tokens.len() ==> #[trigger] is_in_order(tokens, k),
    decreases tokens.len() - i,
{
    lemma_flags_differ();
    if i < tokens.len() {
        if script::takes_value(tokens[i]) {
            if i + 1 < tokens.len() {
                assert(is_value(tokens, i + 1));
                assert(is_in_order(tokens, i + 1));
                if let Ok(b) = script::with_value(a, tokens[i], tokens[i + 1]) {
                    assert(!is_value(tokens, i + 2));
                    lemma_in_order(tokens, i + 2, b);
                    assert(is_in_order(tokens, i));
                    if script::args_from(tokens, i, a) is Ok {
                        assert forall|k: int| i <= k < tokens.len() implies #[trigger] is_in_order(
                            tokens,
                            k,
                        ) by {
                            if k > i + 1 {
                            }
                        }
                    }
                } else {
                    assert(!is_in_order(tokens, i));
                }
            } else {
                assert(!is_in_order(tokens, i));
            }
        } else {
            if let Ok(b) = script::with_flag(a, tokens[i]) {
                assert(!is_value(tokens, i + 1));
                lemma_in_order(tokens, i + 1, b);
                assert(is_in_order(tokens, i));
                if script::args_from(tokens, i, a) is Ok {
                    assert forall|k: int| i <= k < tokens.len() implies #[trigger] is_in_order(
                        tokens,
                        k,
                    ) by {
                        if k > i {
                        }
                    }
                }
            } else {
                assert(!is_in_order(tokens, i));
            }
        }
    }
}

proof fn lemma_one_last_value(
    tokens: Seq<Seq<char>>,
    flag: Seq<char>,
    v: Option<Seq<char>>,
    w: Option<Seq<char>>,
)
    requires
        last_value_is(tokens, flag, v),
        last_value_is(tokens, flag, w),
    ensures
        v == w,
{
    if v is Some {
        let i = choose|i: int| #![trigger tokens[i]]
            {
                &&& flag_at(tokens, i, flag)
                &&& i + 1 < tokens.len()
                &&& tokens[i + 1] == v->0
                &&& forall|j: int| #![trigger tokens[j]] j > i ==> !flag_at(tokens, j, flag)
            };
        assert(w is Some);
        let k = choose|i: int| #![trigger tokens[i]]
            {
                &&& flag_at(tokens, i, flag)
                &&& i + 1 < tokens.len()
                &&& tokens[i + 1] == w->0
                &&& forall|j: int| #![trigger tokens[j]] j > i ==> !flag_at(tokens, j, flag)
            };
        assert(tokens[i] == tokens[k]);
        assert(i == k);
    } else if w is Some {
        let k = choose|i: int| #![trigger tokens[i]]
            {
                &&& flag_at(tokens, i, flag)
                &&& i + 1 < tokens.len()
                &&& tokens[i + 1] == w->0
                &&& forall|j: int| #![trigger tokens[j]] j > i ==> !flag_at(tokens, j, flag)
            };
        assert(!flag_at(tokens, k, flag));
    }
}

proof fn lemma_one_last_count(tokens: Seq<Seq<char>>, v: ReplaceCount, w: ReplaceCount)
    requires
        last_count_is(tokens, v),
        last_count_is(tokens, w),
        w == ReplaceCount::All || w == ReplaceCount::FirstPerLine,
    ensures
        v == w,
{
    if w == ReplaceCount::All {
        if v != ReplaceCount::All {
            let i = choose|i: int| #![trigger tokens[i]]
                {
                    &&& counts_at(tokens, i)
                    &&& forall|j: int| #![trigger tokens[j]] j > i ==> !counts_at(tokens, j)
                    &&& v == ReplaceCount::FirstPerLine <==> tokens[i] == "--first"@
                    &&& v == ReplaceCount::FirstInFile <==> tokens[i] == "--first-in-file"@
                    &&& v matches ReplaceCount::Max(n) ==> i + 1 < tokens.len() && n >= 1
                        && strings::usize_value(tokens[i + 1]) == Some(n)
                };
            assert(!counts_at(tokens, i));
        }
    } else {
        let i = choose|i: int| #![trigger tokens[i]]
            {
                &&& counts_at(tokens, i)
                &&& forall|j: int| #![trigger tokens[j]] j > i ==> !counts_at(tokens, j)
                &&& w == ReplaceCount::FirstPerLine <==> tokens[i] == "--first"@
                &&& w == ReplaceCount::FirstInFile <==> tokens[i] == "--first-in-file"@
                &&& w matches ReplaceCount::Max(n) ==> i + 1 < tokens.len() && n >= 1
                    && strings::usize_value(tokens[i + 1]) == Some(n)
            };
        assert(v != ReplaceCount::All);
        let k = choose|i: int| #![trigger tokens[i]]
            {
                &&& counts_at(tokens, i)
                &&& forall|j: int| #![trigger tokens[j]] j > i ==> !counts_at(tokens, j)
                &&& v == ReplaceCount::FirstPerLine <==> tokens[i] == "--first"@
                &&& v == ReplaceCount::FirstInFile <==> tokens[i] == "--first-in-file"@
                &&& v matches ReplaceCount::Max(n) ==> i + 1 < tokens.len() && n >= 1
                    && strings::usize_value(tokens[i + 1]) == Some(n)
            };
        assert(tokens[i] == tokens[k]);
        assert(i == k);
    }
}

/// A script line is accepted just where it names an operation, gives it enough
/// positional arguments, and each of its flags is known, has the value that it
/// takes, and is one of that operation.
pub proof fn law_line_is_accepted(line: Seq<char>)
    ensures
        ({
            let tokens = script::tokens_of(line);
            let name = transform::str_lower(tokens[0]);
            script::line_op(line) is Ok <==> {
                &&& tokens.len() > 0
                &&& forall|k: int| 1 <= k < tokens.len() ==> #[trigger] is_in_order(tokens, k)
                &&& needs(name, positionals(tokens, tokens.len() as int).len() as int)
                &&& flags_fit(name, tokens)
            }
        }),
{
    let tokens = script::tokens_of(line);
    let name = transform::str_lower(tokens[0]);
    if tokens.len() > 0 {
        lemma_line_says(tokens);
        lemma_in_order(tokens, 1, script::no_args());
        assert(tokens.take(tokens.len() as int) =~= tokens);
        if let Ok(a) = script::args_from(tokens, 1, script::no_args()) {
            lemma_names_differ();
            assert(last_count_is(tokens, ReplaceCount::All) == (a.count == ReplaceCount::All)) by {
                if last_count_is(tokens, ReplaceCount::All) {
                    lemma_one_last_count(tokens, a.count, ReplaceCount::All);
                }
            }
            assert(last_count_is(tokens, ReplaceCount::FirstPerLine) == (a.count
                == ReplaceCount::FirstPerLine)) by {
                if last_count_is(tokens, ReplaceCount::FirstPerLine) {
                    lemma_one_last_count(tokens, a.count, ReplaceCount::FirstPerLine);
                }
            }
            assert(last_value_is(tokens, "--prefix"@, None) == (a.prefix is None)) by {
                if last_value_is(tokens, "--prefix"@, None) {
                    lemma_one_last_value(tokens, "--prefix"@, a.prefix, None);
                }
            }
            assert(last_value_is(tokens, "--suffix"@, None) == (a.suffix is None)) by {
                if last_value_is(tokens, "--suffix"@, None) {
                    lemma_one_last_value(tokens, "--suffix"@, a.suffix, None);
                }
            }
            assert((exists|mode: Seq<char>|
                last_value_is(tokens, "--mode"@, Some(mode)) && #[trigger] operation::mode_of_name(
                    mode,
                ) is Some) == (a.mode matches Some(s) && operation::mode_of_name(s) is Some)) by {
                if exists|mode: Seq<char>|
                    last_value_is(tokens, "--mode"@, Some(mode))
                        && #[trigger] operation::mode_of_name(mode) is Some {
                    let mode = choose|mode: Seq<char>|
                        last_value_is(tokens, "--mode"@, Some(mode))
                            && #[trigger] operation::mode_of_name(mode) is Some;
                    lemma_one_last_value(tokens, "--mode"@, a.mode, Some(mode));
                }
            }
            assert((exists|amount: usize| #[trigger] amount_is(tokens, amount))
                == script::amount_of(a) is Ok) by {
                if script::amount_of(a) is Ok {
                    let amount = script::amount_of(a)->Ok_0;
                    if a.amount is Some {
                        assert(strings::usize_value(a.amount->0) == Some(amount));
                    }
                    assert(amount_is(tokens, amount));
                }
                if exists|amount: usize| #[trigger] amount_is(tokens, amount) {
                    let amount = choose|amount: usize| #[trigger] amount_is(tokens, amount);
                    if last_value_is(tokens, "--amount"@, None) {
                        lemma_one_last_value(tokens, "--amount"@, a.amount, None);
                    } else {
                        let value = choose|value: Seq<char>|
                            last_value_is(tokens, "--amount"@, Some(value))
                                && #[trigger] strings::usize_value(value) == Some(amount);
                        lemma_one_last_value(tokens, "--amount"@, a.amount, Some(value));
                    }
                }
            }
        }
    }
}

/// The names of operations differ from one another.
proof fn lemma_names_differ()
    ensures
        "replace"@.len() == 7,
        "delete"@.len() == 6 && "delete"@[2] == 'l',
        "insert_after"@.len() == 12 && "insert_after"@[0] == 'i',
        "insert_before"@.len() == 13,
        "replace_line"@.len() == 12 && "replace_line"@[0] == 'r',
        "transform"@.len() == 9,
        "surround"@.len() == 8,
        "indent"@.len() == 6 && "indent"@[0] == 'i' && "indent"@[2] == 'd',
        "dedent"@.len() == 6 && "dedent"@[0] == 'd' && "dedent"@[2] == 'd',
        "delete"@[0] == 'd',
{
    reveal_strlit("replace");
    reveal_strlit("delete");
    reveal_strlit("insert_after");
    reveal_strlit("insert_before");
    reveal_strlit("replace_line");
    reveal_strlit("transform");
    reveal_strlit("surround");
    reveal_strlit("indent");
    reveal_strlit("dedent");
}

// ---------------------------------------------------------------------------
// Words and quotes
// ---------------------------------------------------------------------------

/// A tokenizer that has read a text from a given state on.
spec fn token_run(t: TokenState, s: Seq<char>) -> TokenState
    decreases s.len(),
{
    if s.len() == 0 {
        t
    } else {
        script::token_step(token_run(t, s.drop_last()), s.last())
    }
}

spec fn token_start() -> TokenState {
    TokenState {
        tokens: Seq::empty(),
        current: Seq::empty(),
        quoted: false,
        mode: TokenMode::Plain,
    }
}

proof fn lemma_run_is_at(line: Seq<char>, i: int)
    requires
        0 <= i <= line.len(),
    ensures
        script::token_at(line, i) == token_run(token_start(), line.take(i)),
    decreases i,
{
    if i > 0 {
        lemma_run_is_at(line, i - 1);
        assert(line.take(i).drop_last() =~= line.take(i - 1));
    }
}

proof fn lemma_run_append(t: TokenState, a: Seq<char>, b: Seq<char>)
    ensures
        token_run(t, a + b) == token_run(token_run(t, a), b),
    decreases b.len(),
{
    if b.len() > 0 {
        assert((a + b).drop_last() =~= a + b.drop_last());
        lemma_run_append(t, a, b.drop_last());
    } else {
        assert(a + b =~= a);
    }
}

/// A text as it is written in double quotes: quotes and backslashes behind a
/// backslash, a newline as `\n` and a tab as `\t`.
pub open spec fn escaped_text(s: Seq<char>) -> Seq<char>
    decreases s.len(),
{
    if s.len() == 0 {
        Seq::empty()
    } else {
        let c = s.last();
        escaped_text(s.drop_last()) + if c == '"' || c == '\\' {
            seq!['\\', c]
        } else if c == '\n' {
            seq!['\\', 'n']
        } else if c == '\t' {
            seq!['\\', 't']
        } else {
            seq![c]
        }
    }
}

/// A text in double quotes.
pub open spec fn quoted(s: Seq<char>) -> Seq<char> {
    seq!['"'] + escaped_text(s) + seq!['"']
}

/// Texts in double quotes, with a space behind each.
pub open spec fn quoted_line(tokens: Seq<Seq<char>>) -> Seq<char>
    decreases tokens.len(),
{
    if tokens.len() == 0 {
        Seq::empty()
    } else {
        quoted_line(tokens.drop_last()) + quoted(tokens.last()) + seq![' ']
    }
}

proof fn lemma_run_escaped(t: TokenState, s: Seq<char>)
    requires
        t.mode == TokenMode::Double,
    ensures
        token_run(t, escaped_text(s)) == (TokenState { current: t.current + s, ..t }),
    decreases s.len(),
{
    reveal_with_fuel(token_run, 3);
    if s.len() == 0 {
        assert(t.current + s =~= t.current);
    } else {
        let c = s.last();
        let head = s.drop_last();
        let tail = if c == '"' || c == '\\' {
            seq!['\\', c]
        } else if c == '\n' {
            seq!['\\', 'n']
        } else if c == '\t' {
            seq!['\\', 't']
        } else {
            seq![c]
        };
        lemma_run_escaped(t, head);
        lemma_run_append(t, escaped_text(head), tail);
        let mid = TokenState { current: t.current + head, ..t };
        let end = token_run(mid, tail);
        if tail.len() == 2 {
            assert(tail.drop_last() =~= seq!['\\']);
            assert(tail.drop_last().drop_last() =~= Seq::<char>::empty());
            assert(tail.drop_last().last() == '\\');
            assert(mid.current + seq![c] =~= t.current + s);
        } else {
            assert(tail.drop_last() =~= Seq::<char>::empty());
            assert(mid.current.push(c) =~= t.current + s);
        }
        assert(end.current =~= t.current + s);
    }
}

proof fn lemma_run_quoted_line(tokens: Seq<Seq<char>>)
    ensures
        token_run(token_start(), quoted_line(tokens)) == (TokenState { tokens, ..token_start() }),
    decreases tokens.len(),
{
    reveal_with_fuel(token_run, 2);
    let start = token_start();
    if tokens.len() == 0 {
        assert(tokens =~= Seq::<Seq<char>>::empty());
    } else {
        let head = tokens.drop_last();
        let s = tokens.last();
        lemma_run_quoted_line(head);
        let a = quoted_line(head);
        let t0 = TokenState { tokens: head, ..start };
        lemma_space_behind();
        lemma_run_append(start, a, quoted(s) + seq![' ']);
        assert(a + (quoted(s) + seq![' ']) =~= quoted_line(tokens));
        lemma_run_append(t0, quoted(s), seq![' ']);
        lemma_run_append(t0, seq!['"'] + escaped_text(s), seq!['"']);
        lemma_run_append(t0, seq!['"'], escaped_text(s));
        let t1 = token_run(t0, seq!['"']);
        assert(seq!['"'].drop_last() =~= Seq::<char>::empty());
        assert(t1 == (TokenState { mode: TokenMode::Double, quoted: true, ..t0 }));
        lemma_run_escaped(t1, s);
        let t2 = token_run(t1, escaped_text(s));
        assert(t2.current =~= s);
        let t3 = token_run(t2, seq!['"']);
        assert(t3 == (TokenState { mode: TokenMode::Plain, ..t2 }));
        assert(seq![' '].drop_last() =~= Seq::<char>::empty());
        assert(head.push(s) =~= tokens);
    }
}

proof fn lemma_space_behind()
    ensures
        strings::char_whitespace(' '),
{
}

/// Any texts at all can be the tokens of a script line: written in double
/// quotes, with quotes, backslashes, newlines and tabs escaped, they are read
/// back as they were.
pub proof fn law_quoted_tokens_are_read_back(tokens: Seq<Seq<char>>)
    ensures
        script::tokens_of(quoted_line(tokens)) == tokens,
{
    let line = quoted_line(tokens);
    lemma_run_is_at(line, line.len() as int);
    assert(line.take(line.len() as int) =~= line);
    lemma_run_quoted_line(tokens);
}

/// Whether a text can stand as a word: it is not empty and holds neither white
/// space nor quotes.
pub open spec fn is_word(s: Seq<char>) -> bool {
    &&& s.len() > 0
    &&& forall|k: int| #![trigger s[k]]
        0 <= k < s.len() ==> !strings::char_whitespace(s[k]) && s[k] != '"' && s[k] != '\''
}

/// Texts with a space behind each.
pub open spec fn word_line(tokens: Seq<Seq<char>>) -> Seq<char>
    decreases tokens.len(),
{
    if tokens.len() == 0 {
        Seq::empty()
    } else {
        word_line(tokens.drop_last()) + tokens.last() + seq![' ']
    }
}

proof fn lemma_run_plain(t: TokenState, s: Seq<char>)
    requires
        t.mode == TokenMode::Plain,
        forall|k: int| #![trigger s[k]]
            0 <= k < s.len() ==> !strings::char_whitespace(s[k]) && s[k] != '"' && s[k] != '\'',
    ensures
        token_run(t, s) == (TokenState { current: t.current + s, ..t }),
    decreases s.len(),
{
    if s.len() == 0 {
        assert(t.current + s =~= t.current);
    } else {
        lemma_run_plain(t, s.drop_last());
        assert(s[s.len() - 1] == s.last());
        assert((t.current + s.drop_last()).push(s.last()) =~= t.current + s);
    }
}

proof fn lemma_run_single(t: TokenState, s: Seq<char>)
    requires
        t.mode == TokenMode::Single,
        !s.contains('\''),
    ensures
        token_run(t, s) == (TokenState { current: t.current + s, ..t }),
    decreases s.len(),
{
    if s.len() == 0 {
        assert(t.current + s =~= t.current);
    } else {
        assert(s.contains(s[s.len() - 1]));
        assert forall|c: char| s.drop_last().contains(c) implies s.contains(c) by {
            let k = choose|k: int| 0 <= k < s.drop_last().len() && s.drop_last()[k] == c;
            assert(s[k] == c);
        }
        lemma_run_single(t, s.drop_last());
        assert((t.current + s.drop_last()).push(s.last()) =~= t.current + s);
    }
}

/// Words are read as they stand, one token for each; a backslash means nothing
/// outside quotes.
pub proof fn law_words_are_tokens(tokens: Seq<Seq<char>>)
    requires
        forall|k: int| 0 <= k < tokens.len() ==> is_word(#[trigger] tokens[k]),
    ensures
        script::tokens_of(word_line(tokens)) == tokens,
{
    let line = word_line(tokens);
    lemma_run_is_at(line, line.len() as int);
    assert(line.take(line.len() as int) =~= line);
    lemma_run_words(tokens);
}

proof fn lemma_run_words(tokens: Seq<Seq<char>>)
    requires
        forall|k: int| 0 <= k < tokens.len() ==> is_word(#[trigger] tokens[k]),
    ensures
        token_run(token_start(), word_line(tokens)) == (TokenState { tokens, ..token_start() }),
    decreases tokens.len(),
{
    reveal_with_fuel(token_run, 2);
    let start = token_start();
    if tokens.len() == 0 {
        assert(tokens =~= Seq::<Seq<char>>::empty());
    } else {
        let head = tokens.drop_last();
        let s = tokens.last();
        assert(is_word(tokens[tokens.len() - 1]));
        assert forall|k: int| 0 <= k < head.len() implies is_word(#[trigger] head[k]) by {
            assert(is_word(tokens[k]));
        }
        lemma_run_words(head);
        lemma_space_behind();
        let t0 = TokenState { tokens: head, ..start };
        lemma_run_append(start, word_line(head), s + seq![' ']);
        assert(word_line(head) + (s + seq![' ']) =~= word_line(tokens));
        lemma_run_append(t0, s, seq![' ']);
        lemma_run_plain(t0, s);
        assert(t0.current + s =~= s);
        assert(seq![' '].drop_last() =~= Seq::<char>::empty());
        assert(head.push(s) =~= tokens);
    }
}

/// What stands in single quotes is one token as it stands, without escapes.
pub proof fn law_single_quotes_are_literal(s: Seq<char>)
    requires
        !s.contains('\''),
    ensures
        script::tokens_of(seq!['\''] + s + seq!['\'']) == seq![s],
{
    reveal_with_fuel(token_run, 2);
    let start = token_start();
    let line = seq!['\''] + s + seq!['\''];
    lemma_run_is_at(line, line.len() as int);
    assert(line.take(line.len() as int) =~= line);
    lemma_run_append(start, seq!['\''] + s, seq!['\'']);
    lemma_run_append(start, seq!['\''], s);
    let t1 = token_run(start, seq!['\'']);
    assert(seq!['\''].drop_last() =~= Seq::<char>::empty());
    lemma_run_single(t1, s);
    let t2 = token_run(t1, s);
    assert(t2.current =~= s);
    assert(Seq::<Seq<char>>::empty().push(s) =~= seq![s]);
}

/// A comment starts at the first `#` of a line that holds no quotes and no
/// backslash before it; what stands before it is kept without the white space
/// that it ends with.
pub proof fn law_comment_is_cut(before: Seq<char>, comment: Seq<char>)
    requires
        forall|k: int| #![trigger before[k]]
            0 <= k < before.len() ==> before[k] != '#' && before[k] != '"' && before[k] != '\''
                && before[k] != '\\',
    ensures
        script::without_comment(before + seq!['#'] + comment, 0) == script::trim_end(before),
{
    let line = before + seq!['#'] + comment;
    lemma_no_quotes(line, before.len() as int);
    lemma_cut_at(line, 0, before.len() as int);
    assert(line.take(before.len() as int) =~= before);
}

proof fn lemma_no_quotes(line: Seq<char>, n: int)
    requires
        0 <= n <= line.len(),
        forall|k: int| #![trigger line[k]]
            0 <= k < n ==> line[k] != '"' && line[k] != '\'' && line[k] != '\\',
    ensures
        script::quote_at(line, n) == (QuoteState { double: false, single: false, escaped: false }),
    decreases n,
{
    if n > 0 {
        lemma_no_quotes(line, n - 1);
        assert(line[n - 1] != '"');
    }
}

proof fn lemma_cut_at(line: Seq<char>, i: int, c: int)
    requires
        0 <= i <= c < line.len(),
        line[c] == '#',
        forall|k: int| #![trigger line[k]]
            0 <= k < c ==> line[k] != '#' && line[k] != '"' && line[k] != '\'' && line[k] != '\\',
    ensures
        script::without_comment(line, i) == script::trim_end(line.take(c)),
    decreases c - i,
{
    if i < c {
        assert(line[i] != '#');
        lemma_cut_at(line, i + 1, c);
    } else {
        lemma_no_quotes(line, c);
    }
}

/// A `#` in quotes starts no comment: what stands up to the closing quote stays
/// with the line.
pub proof fn law_quotes_hide_comments(before: Seq<char>, inside: Seq<char>, q: char, rest: Seq<char>)
    requires
        q == '"' || q == '\'',
        forall|k: int| #![trigger before[k]]
            0 <= k < before.len() ==> before[k] != '#' && before[k] != '"' && before[k] != '\''
                && before[k] != '\\',
        forall|k: int| #![trigger inside[k]] 0 <= k < inside.len() ==> inside[k] != q,
        q == '"' ==> !inside.contains('\\'),
    ensures
        ({
            let head = before + seq![q] + inside + seq![q];
            head.is_prefix_of(script::without_comment(head + rest, 0))
        }),
{
    let head = before + seq![q] + inside + seq![q];
    let line = head + rest;
    let b = before.len() as int;
    let e = head.len() as int;
    lemma_no_quotes(line, b);
    assert(line[b] == q);
    assert forall|j: int| 0 <= j < e implies !#[trigger] script::comment_at(line, j) by {
        if j < b {
            assert(line[j] == before[j]);
        } else if j > b {
            lemma_in_quotes(line, q, b, j, e - 1);
            if j < e - 1 {
                assert(line[j] == inside[j - b - 1]);
            } else {
                assert(line[j] == q);
            }
        }
    }
    lemma_in_quotes(line, q, b, e - 1, e - 1);
    lemma_skip_to(line, 0, e);
    let c = lemma_comment_found(line, e);
    let r = script::without_comment(line, e);
    if c < line.len() {
        let cut = line.take(c);
        assert(cut[e - 1] == q);
        lemma_trim_keeps(cut, e);
        lemma_trim_end_is_prefix(cut);
        assert(r.take(e) =~= head);
    } else {
        assert(r.take(e) =~= head);
    }
}

proof fn lemma_skip_to(line: Seq<char>, i: int, e: int)
    requires
        0 <= i <= e <= line.len(),
        forall|j: int| 0 <= j < e ==> !#[trigger] script::comment_at(line, j),
    ensures
        script::without_comment(line, i) == script::without_comment(line, e),
    decreases e - i,
{
    if i < e {
        assert(!script::comment_at(line, i));
        lemma_skip_to(line, i + 1, e);
    }
}

proof fn lemma_in_quotes(line: Seq<char>, q: char, b: int, j: int, e: int)
    requires
        0 <= b < j <= e < line.len(),
        q == '"' || q == '\'',
        line[b] == q,
        script::quote_at(line, b) == (QuoteState { double: false, single: false, escaped: false }),
        forall|k: int| #![trigger line[k]]
            b < k < e ==> line[k] != q && (q == '"' ==> line[k] != '\\'),
    ensures
        script::quote_at(line, j) == (QuoteState {
            double: q == '"',
            single: q == '\'',
            escaped: false,
        }),
    decreases j - b,
{
    if j > b + 1 {
        lemma_in_quotes(line, q, b, j - 1, e);
        assert(line[j - 1] != q);
    }
}

proof fn lemma_trim_keeps(s: Seq<char>, e: int)
    requires
        0 < e <= s.len(),
        s[e - 1] == '"' || s[e - 1] == '\'',
    ensures
        script::trim_end(s).len() >= e,
    decreases s.len(),
{
    if strings::char_whitespace(s.last()) {
        assert(e < s.len());
        assert(s.drop_last()[e - 1] == s[e - 1]);
        lemma_trim_keeps(s.drop_last(), e);
    }
}

/// Trimming leaves a part of a text that neither starts nor ends with white
/// space, and takes nothing but white space away.
pub proof fn law_trimming_takes_white_space(s: Seq<char>)
    ensures
        ({
            let t = script::trim(s);
            &&& t.len() > 0 ==> !strings::char_whitespace(t[0]) && !strings::char_whitespace(t.last())
            &&& exists|a: int, b: int|
                {
                    &&& 0 <= a <= b <= s.len()
                    &&& t == #[trigger] s.subrange(a, b)
                    &&& forall|k: int| 0 <= k < a ==> strings::char_whitespace(#[trigger] s[k])
                    &&& forall|k: int|
                        b <= k < s.len() ==> strings::char_whitespace(#[trigger] s[k])
                }
        }),
{
    let a = lemma_trim_start(s);
    let u = script::trim_start(s);
    let n = lemma_trim_tail(u);
    let t = script::trim(s);
    assert(t =~= s.subrange(a, a + n));
    assert forall|k: int| a + n <= k < s.len() implies strings::char_whitespace(#[trigger] s[k]) by {
        assert(u[k - a] == s[k]);
    }
    if t.len() > 0 {
        assert(t[0] == u[0]);
    }
}

proof fn lemma_trim_start(s: Seq<char>) -> (a: int)
    ensures
        0 <= a <= s.len(),
        script::trim_start(s) == s.skip(a),
        forall|k: int| 0 <= k < a ==> strings::char_whitespace(#[trigger] s[k]),
        a < s.len() ==> !strings::char_whitespace(s[a]),
    decreases s.len(),
{
    if s.len() > 0 && strings::char_whitespace(s[0]) {
        let b = lemma_trim_start(s.skip(1));
        assert(s.skip(1).skip(b) =~= s.skip(b + 1));
        assert forall|k: int| 0 <= k < b + 1 implies strings::char_whitespace(#[trigger] s[k]) by {
            if k > 0 {
                assert(s.skip(1)[k - 1] == s[k]);
            }
        }
        if b + 1 < s.len() {
            assert(s.skip(1)[b] == s[b + 1]);
        }
        b + 1
    } else {
        assert(s.skip(0) =~= s);
        0
    }
}

proof fn lemma_trim_tail(s: Seq<char>) -> (n: int)
    ensures
        0 <= n <= s.len(),
        script::trim_end(s) == s.take(n),
        forall|k: int| n <= k < s.len() ==> strings::char_whitespace(#[trigger] s[k]),
        n > 0 ==> !strings::char_whitespace(s[n - 1]),
    decreases s.len(),
{
    if s.len() > 0 && strings::char_whitespace(s.last()) {
        let n = lemma_trim_tail(s.drop_last());
        assert(s.drop_last().take(n) =~= s.take(n));
        assert forall|k: int| n <= k < s.len() implies strings::char_whitespace(#[trigger] s[k]) by {
            if k < s.len() - 1 {
                assert(s.drop_last()[k] == s[k]);
            }
        }
        if n > 0 {
            assert(s.drop_last()[n - 1] == s[n - 1]);
        }
        n
    } else {
        assert(s.take(s.len() as int) =~= s);
        s.len() as int
    }
}

/// The operations of a script are those of its lines that are neither blank nor
/// comments, in order; one line that is not accepted has the whole script
/// refused, with the number of the first such line.
pub proof fn law_script_is_read_line_by_line(ls: Seq<Seq<char>>, n: int)
    requires
        0 <= n <= ls.len(),
    ensures
        ({
            let r = script::script_ops(ls, n);
            let said = |i: int| script::line_op(script::without_comment(script::trim(ls[i]), 0));
            let blank = |i: int| script::trim(ls[i]).len() == 0 || script::trim(ls[i])[0] == '#';
            &&& r is Ok <==> forall|i: int| #![trigger ls[i]]
                0 <= i < n ==> blank(i) || said(i) is Ok
            &&& r matches Err(e) ==> exists|i: int| #![trigger ls[i]]
                {
                    &&& 0 <= i < n
                    &&& !blank(i)
                    &&& said(i) is Err
                    &&& e == script::script_line_error(i + 1, said(i)->Err_0)
                    &&& forall|j: int| #![trigger ls[j]] 0 <= j < i ==> blank(j) || said(j) is Ok
                }
            &&& r is Ok && n > 0 ==> {
                let before = script::script_ops(ls, n - 1);
                &&& before is Ok
                &&& r->Ok_0 == if blank(n - 1) {
                    before->Ok_0
                } else {
                    before->Ok_0.push(said(n - 1)->Ok_0)
                }
            }
        }),
    decreases n,
{
    if n > 0 {
        law_script_is_read_line_by_line(ls, n - 1);
        let said = |i: int| script::line_op(script::without_comment(script::trim(ls[i]), 0));
        let blank = |i: int| script::trim(ls[i]).len() == 0 || script::trim(ls[i])[0] == '#';
        assert(ls[n - 1] == ls[n - 1]);
        if script::script_ops(ls, n) is Ok {
            assert forall|i: int| #![trigger ls[i]] 0 <= i < n implies blank(i) || said(i) is Ok by {
                if i == n - 1 {
                }
            }
        } else if script::script_ops(ls, n - 1) is Err {
            let i = choose|i: int| #![trigger ls[i]]
                {
                    &&& 0 <= i < n - 1
                    &&& !blank(i)
                    &&& said(i) is Err
                    &&& script::script_ops(ls, n - 1)->Err_0 == script::script_line_error(
                        i + 1,
                        said(i)->Err_0,
                    )
                    &&& forall|j: int| #![trigger ls[j]] 0 <= j < i ==> blank(j) || said(j) is Ok
                };
            assert(0 <= i < n && !blank(i) && said(i) is Err);
            assert(ls[i] == ls[i]);
        } else {
            assert(!blank(n - 1) && said(n - 1) is Err);
        }
    }
}

// ---------------------------------------------------------------------------
// Scripts put together
// ---------------------------------------------------------------------------

/// The operations of a list of lines.
pub open spec fn ops_of(ls: Seq<Seq<char>>) -> Result<Seq<ScriptOpView>, error::ErrorView> {
    script::script_ops(ls, ls.len() as int)
}

/// The lines that follow do not matter to those before.
proof fn lemma_ops_prefix(a: Seq<Seq<char>>, b: Seq<Seq<char>>, k: int)
    requires
        0 <= k <= a.len(),
    ensures
        script::script_ops(a + b, k) == script::script_ops(a, k),
    decreases k,
{
    if k > 0 {
        lemma_ops_prefix(a, b, k - 1);
        assert((a + b)[k - 1] == a[k - 1]);
    }
}

/// Behind lines that are in order, lines are in order just where they are on
/// their own, and add the same operations.
proof fn lemma_ops_append(a: Seq<Seq<char>>, b: Seq<Seq<char>>, n: int)
    requires
        0 <= n <= b.len(),
        ops_of(a) is Ok,
    ensures
        script::script_ops(a + b, a.len() + n) is Ok <==> script::script_ops(b, n) is Ok,
        script::script_ops(b, n) matches Ok(y) ==> script::script_ops(a + b, a.len() + n) == Ok::<
            Seq<ScriptOpView>,
            error::ErrorView,
        >(ops_of(a)->Ok_0 + y),
    decreases n,
{
    if n <= 0 {
        lemma_ops_prefix(a, b, a.len() as int);
        assert(ops_of(a)->Ok_0 + Seq::<ScriptOpView>::empty() =~= ops_of(a)->Ok_0);
    } else {
        lemma_ops_append(a, b, n - 1);
        assert((a + b)[a.len() + n - 1] == b[n - 1]);
        if let Ok(y) = script::script_ops(b, n - 1) {
            if !script::is_blank_or_comment(b[n - 1]) {
                if let Ok(op) = script::line_op(
                    script::without_comment(script::trim(b[n - 1]), 0),
                ) {
                    assert((ops_of(a)->Ok_0 + y).push(op) =~= ops_of(a)->Ok_0 + y.push(op));
                }
            }
        }
    }
}

/// What is wrong with a line is wrong with every list that starts with it.
proof fn lemma_ops_first(l: Seq<char>, rest: Seq<Seq<char>>)
    ensures
        ops_of(seq![l] + rest) is Ok ==> ops_of(seq![l]) is Ok,
{
    lemma_ops_prefix(seq![l], rest, 1);
    if ops_of(seq![l]) is Err {
        script::lemma_script_error_stays(seq![l] + rest, 1, 1int + rest.len());
    }
}

/// Whitespace behind a text is trimmed off.
proof fn lemma_trim_push(s: Seq<char>, c: char)
    requires
        strings::char_whitespace(c),
    ensures
        script::trim(s.push(c)) == script::trim(s),
    decreases s.len(),
{
    let t = s.push(c);
    if s.len() == 0 {
        assert(t.skip(1) =~= s);
        assert(t[0] == c);
    } else if strings::char_whitespace(s[0]) {
        assert(t[0] == s[0]);
        assert(t.skip(1) =~= s.skip(1).push(c));
        lemma_trim_push(s.skip(1), c);
    } else {
        assert(t[0] == s[0]);
        assert(t.last() == c);
        assert(t.drop_last() =~= s);
    }
}

/// The lines of a text behind another are its own.
proof fn lemma_lines_shift(p: Seq<char>, s: Seq<char>, j: int)
    requires
        0 <= j <= s.len(),
    ensures
        lines::lines_from(p + s, p.len() + j) == lines::lines_from(s, j),
    decreases s.len() + 1 - j,
{
    let t = p + s;
    if j < s.len() {
        lines::lemma_first_newline(s, j);
        let e = lines::first_newline(s, j);
        assert forall|k: int| p.len() + j <= k < p.len() + e implies t[k] != '\n' by {
            assert(t[k] == s[k - p.len()]);
        }
        if e < s.len() {
            assert(t[p.len() + e] == s[e]);
        }
        lines::lemma_first_newline_is(t, p.len() + j, p.len() + e);
        if j < e {
            assert(t[p.len() + e - 1] == s[e - 1]);
        }
        let c = lines::content_end(s, j, e);
        assert(lines::content_end(t, p.len() + j, p.len() + e) == p.len() + c);
        assert(t.subrange(p.len() + j, p.len() + c) =~= s.subrange(j, c));
        if e < s.len() {
            lemma_lines_shift(p, s, e + 1);
        } else {
            assert(lines::lines_from(t, p.len() + e + 1) =~= Seq::<Seq<char>>::empty());
            assert(lines::lines_from(s, e + 1) =~= Seq::<Seq<char>>::empty());
        }
    }
}

/// The operations from one line of the first text on, with the second behind it.
proof fn lemma_join_from(a: Seq<char>, b: Seq<char>, i: int)
    requires
        0 <= i <= a.len(),
        ops_of(lines::lines_from(a, i)) is Ok,
        ops_of(lines::lines(b)) is Ok,
    ensures
        ops_of(lines::lines_from(a + seq!['\n'] + b, i)) == Ok::<
            Seq<ScriptOpView>,
            error::ErrorView,
        >(ops_of(lines::lines_from(a, i))->Ok_0 + ops_of(lines::lines(b))->Ok_0),
    decreases a.len() + 1 - i,
{
    let head = a + seq!['\n'];
    let t = head + b;
    let tail = lines::lines(b);
    let y = ops_of(tail)->Ok_0;
    assert(t[a.len() as int] == '\n');
    lemma_lines_shift(head, b, 0);
    assert(lines::lines_from(t, a.len() + 1int) == tail);
    lines::lemma_first_newline(a, i);
    let e = lines::first_newline(a, i);
    assert forall|k: int| i <= k < e implies t[k] != '\n' by {
        assert(t[k] == a[k]);
    }
    if e < a.len() {
        assert(t[e] == a[e]);
    }
    lines::lemma_first_newline_is(t, i, e);
    let lt = t.subrange(i, lines::content_end(t, i, e));
    assert(lines::lines_from(t, i) == seq![lt] + lines::lines_from(t, e + 1));
    if i == a.len() {
        assert(lt =~= Seq::<char>::empty());
        assert(script::trim(lt) =~= Seq::<char>::empty());
        assert(script::is_blank_or_comment(seq![lt][0]));
        lemma_single(lt);
        lemma_ops_append(seq![lt], tail, tail.len() as int);
        assert(lines::lines_from(a, i) =~= Seq::<Seq<char>>::empty());
        assert(Seq::<ScriptOpView>::empty() + y =~= y);
    } else {
        let la = a.subrange(i, lines::content_end(a, i, e));
        let rest = lines::lines_from(a, e + 1);
        assert(lines::lines_from(a, i) == seq![la] + rest);
        lemma_ops_first(la, rest);
        lemma_ops_append(seq![la], rest, rest.len() as int);
        lemma_single(la);
        lemma_single(lt);
        if i < e {
            assert(t[e - 1] == a[e - 1]);
        }
        if e < a.len() {
            assert(lt =~= la);
            lemma_join_from(a, b, e + 1);
            let more = lines::lines_from(t, e + 1);
            lemma_ops_append(seq![la], more, more.len() as int);
            let u = ops_of(seq![la])->Ok_0;
            let v = ops_of(rest)->Ok_0;
            assert(u + (v + y) =~= (u + v) + y);
        } else {
            assert(rest =~= Seq::<Seq<char>>::empty());
            if lt.len() < la.len() {
                assert(la =~= lt.push('\r'));
                lemma_trim_push(lt, '\r');
            } else {
                assert(lt =~= la);
            }
            lemma_ops_append(seq![lt], tail, tail.len() as int);
            assert(ops_of(seq![la])->Ok_0 + Seq::<ScriptOpView>::empty()
                =~= ops_of(seq![la])->Ok_0);
        }
    }
}

/// The operations of one line hang on the line without the whitespace around it.
proof fn lemma_single(l: Seq<char>)
    ensures
        ops_of(seq![l]) == if script::is_blank_or_comment(l) {
            Ok(Seq::empty())
        } else {
            match script::line_op(script::without_comment(script::trim(l), 0)) {
                Ok(op) => Ok(Seq::empty().push(op)),
                Err(detail) => Err(script::script_line_error(1, detail)),
            }
        },
{
    reveal_with_fuel(script::script_ops, 2);
    assert(seq![l][0] == l);
}

/// Two scripts put together, one below the other, are the operations of the one
/// followed by those of the other.
pub proof fn law_scripts_join(a: Seq<char>, b: Seq<char>)
    requires
        ops_of(lines::lines(a)) is Ok,
        ops_of(lines::lines(b)) is Ok,
    ensures
        ops_of(lines::lines(a + seq!['\n'] + b)) == Ok::<Seq<ScriptOpView>, error::ErrorView>(
            ops_of(lines::lines(a))->Ok_0 + ops_of(lines::lines(b))->Ok_0,
        ),
{
    lemma_join_from(a, b, 0);
}

} // verus!
