//! Comparison with other tools: what is edited, and by which commands.
use vstd::prelude::*;

use crate::strings;
use crate::strings::{owned, to_decimal};

verus! {

/// How large a comparison is.
#[derive(Debug, Clone, Copy, PartialEq, Eq, Structural)]
pub struct BenchSizes {
    /// Files in a tree.
    pub files: usize,
    /// Lines in each of them.
    pub lines: usize,
    /// Size of the single large file, in mebibytes.
    pub big_mb: usize,
    /// How often each command is timed, at least.
    pub runs: usize,
}

/// How large a comparison is: a quick one is smaller.
pub fn bench_sizes(quick: bool) -> (s: BenchSizes)
    ensures
        s == (if quick {
            BenchSizes { files: 200, lines: 100, big_mb: 8, runs: 3 }
        } else {
            BenchSizes { files: 1000, lines: 200, big_mb: 64, runs: 10 }
        }),
{
    if quick {
        BenchSizes { files: 200, lines: 100, big_mb: 8, runs: 3 }
    } else {
        BenchSizes { files: 1000, lines: 200, big_mb: 64, runs: 10 }
    }
}

/// A line that is edited.
pub open spec fn needle_line() -> Seq<char> {
    "a needle line that will be edited\n"@
}

/// A line that is left alone.
pub open spec fn filler_line() -> Seq<char> {
    "plain filler content on this line\n"@
}

/// The text of a file in a tree: every tenth line is edited, if any is.
pub open spec fn tree_text(n: int, with_needles: bool) -> Seq<char>
    decreases n,
{
    if n <= 0 {
        Seq::empty()
    } else {
        tree_text(n - 1, with_needles) + if with_needles && (n - 1) % 10 == 0 {
            needle_line()
        } else {
            filler_line()
        }
    }
}

/// Writes the text of a file in a tree.
pub fn tree_file(lines: usize, with_needles: bool) -> (r: String)
    ensures
        r@ == tree_text(lines as int, with_needles),
{
    let mut out = String::new();
    let mut i: usize = 0;
    while i < lines
        invariant
            i <= lines,
            out@ == tree_text(i as int, with_needles),
        decreases lines - i,
    {
        if with_needles && i % 10 == 0 {
            out.append("a needle line that will be edited\n");
        } else {
            out.append("plain filler content on this line\n");
        }
        i += 1;
    }
    out
}

/// A text over and over.
pub open spec fn repeated(s: Seq<char>, n: int) -> Seq<char>
    decreases n,
{
    if n <= 0 {
        Seq::empty()
    } else {
        repeated(s, n - 1) + s
    }
}

/// How many bytes the two lines of the large file take.
pub const BIG_PAIR_BYTES: usize = 68;

/// Writes the text of the single large file: pairs of a line that is edited and
/// one that is not, as many as fit.
pub fn big_file(big_mb: usize) -> (r: String)
    requires
        big_mb <= 4095,
    ensures
        r@ == repeated(needle_line() + filler_line(), big_mb * 1024 * 1024 / 68),
{
    let pairs: usize = big_mb * 1024 * 1024 / BIG_PAIR_BYTES;
    let mut out = String::new();
    let mut i: usize = 0;
    while i < pairs
        invariant
            i <= pairs,
            out@ == repeated(needle_line() + filler_line(), i as int),
        decreases pairs - i,
    {
        let ghost before = out@;
        out.append("a needle line that will be edited\n");
        out.append("plain filler content on this line\n");
        proof {
            assert(out@ =~= before + (needle_line() + filler_line()));
        }
        i += 1;
    }
    out
}

/// The other tools that were found.
#[derive(Debug, Clone, Copy, PartialEq, Eq, Structural)]
pub struct Tools {
    pub sed: bool,
    pub sd: bool,
    pub perl: bool,
}

/// A command of a tool.
#[derive(Debug, Clone, PartialEq, Eq)]
pub struct ToolCommand {
    pub tool: String,
    pub command: String,
}

/// The view of a list of commands.
pub open spec fn commands_view(v: Seq<ToolCommand>) -> Seq<(Seq<char>, Seq<char>)> {
    Seq::new(v.len(), |i: int| (v[i].tool@, v[i].command@))
}

/// A command where its tool was found.
pub open spec fn if_found(found: bool, tool: Seq<char>, command: Seq<char>) -> Seq<
    (Seq<char>, Seq<char>),
> {
    if found {
        seq![(tool, command)]
    } else {
        Seq::empty()
    }
}

/// What hands the files of a tree to a tool.
pub open spec fn find_files(work: Seq<char>) -> Seq<char> {
    "find "@ + work + " -name '*.txt' -print0 | xargs -0 "@
}

/// The commands that edit a tree in the same way, by every tool there is.
pub open spec fn tree_commands(work: Seq<char>, ripsed: Seq<char>, pattern: Seq<char>, tools: Tools) -> Seq<
    (Seq<char>, Seq<char>),
> {
    seq![("ripsed"@, "cd "@ + work + " && "@ + ripsed + " '"@ + pattern + "' thread"@)] + if_found(
        tools.sed,
        "sed"@,
        find_files(work) + "sed -i 's/"@ + pattern + "/thread/g'"@,
    ) + if_found(
        tools.sd,
        "sd"@,
        find_files(work) + "sd '"@ + pattern + "' thread"@,
    ) + if_found(
        tools.perl,
        "perl"@,
        find_files(work) + "perl -pi -e 's/"@ + pattern + "/thread/g'"@,
    )
}

/// The commands that edit the large file in the same way.
pub open spec fn big_commands(work: Seq<char>, ripsed: Seq<char>, tools: Tools) -> Seq<
    (Seq<char>, Seq<char>),
> {
    seq![("ripsed"@, "cd "@ + work + " && "@ + ripsed + " needle thread"@)] + if_found(
        tools.sed,
        "sed"@,
        "sed -i 's/needle/thread/g' "@ + work + "/big.txt"@,
    ) + if_found(
        tools.sd,
        "sd"@,
        "sd needle thread "@ + work + "/big.txt"@,
    ) + if_found(
        tools.perl,
        "perl"@,
        "perl -pi -e 's/needle/thread/g' "@ + work + "/big.txt"@,
    )
}

/// Three texts in a row.
fn three(a: &str, b: &str, c: &str) -> (r: String)
    ensures
        r@ == a@ + b@ + c@,
{
    let mut s = owned(a);
    s.append(b);
    s.append(c);
    s
}

/// Adds a command where its tool was found.
fn add_if_found(out: &mut Vec<ToolCommand>, found: bool, tool: &str, command: String)
    ensures
        commands_view(final(out)@) == commands_view(old(out)@) + if_found(found, tool@, command@),
{
    if found {
        out.push(ToolCommand { tool: owned(tool), command });
    }
    proof {
        assert(commands_view(out@) =~= commands_view(old(out)@) + if_found(
            found,
            tool@,
            command@,
        ));
    }
}

/// Writes the commands that edit a tree.
pub fn build_tree_commands(work: &str, ripsed: &str, pattern: &str, tools: Tools) -> (r: Vec<
    ToolCommand,
>)
    ensures
        commands_view(r@) == tree_commands(work@, ripsed@, pattern@, tools),
{
    let mut own = three("cd ", work, " && ");
    own.append(ripsed);
    own.append(" '");
    own.append(pattern);
    own.append("' thread");
    let mut out: Vec<ToolCommand> = Vec::new();
    proof {
        assert(commands_view(out@) =~= Seq::<(Seq<char>, Seq<char>)>::empty());
    }
    add_if_found(&mut out, true, "ripsed", own);
    let found = three("find ", work, " -name '*.txt' -print0 | xargs -0 ");
    let mut sed = three(found.as_str(), "sed -i 's/", pattern);
    sed.append("/thread/g'");
    add_if_found(&mut out, tools.sed, "sed", sed);
    let mut sd = three(found.as_str(), "sd '", pattern);
    sd.append("' thread");
    add_if_found(&mut out, tools.sd, "sd", sd);
    let mut perl = three(found.as_str(), "perl -pi -e 's/", pattern);
    perl.append("/thread/g'");
    add_if_found(&mut out, tools.perl, "perl", perl);
    proof {
        assert(commands_view(out@) =~= tree_commands(work@, ripsed@, pattern@, tools));
    }
    out
}

/// Writes the commands that edit the large file.
pub fn build_big_commands(work: &str, ripsed: &str, tools: Tools) -> (r: Vec<ToolCommand>)
    ensures
        commands_view(r@) == big_commands(work@, ripsed@, tools),
{
    let mut own = three("cd ", work, " && ");
    own.append(ripsed);
    own.append(" needle thread");
    let mut out: Vec<ToolCommand> = Vec::new();
    proof {
        assert(commands_view(out@) =~= Seq::<(Seq<char>, Seq<char>)>::empty());
    }
    add_if_found(&mut out, true, "ripsed", own);
    add_if_found(
        &mut out,
        tools.sed,
        "sed",
        three("sed -i 's/needle/thread/g' ", work, "/big.txt"),
    );
    add_if_found(&mut out, tools.sd, "sd", three("sd needle thread ", work, "/big.txt"));
    add_if_found(
        &mut out,
        tools.perl,
        "perl",
        three("perl -pi -e 's/needle/thread/g' ", work, "/big.txt"),
    );
    proof {
        assert(commands_view(out@) =~= big_commands(work@, ripsed@, tools));
    }
    out
}

/// The arguments that name and give the first `n` commands.
pub open spec fn command_args(cs: Seq<(Seq<char>, Seq<char>)>, n: int) -> Seq<Seq<char>>
    decreases n,
{
    if n <= 0 {
        Seq::empty()
    } else {
        command_args(cs, n - 1) + seq!["--command-name"@, cs[n - 1].0, cs[n - 1].1]
    }
}

/// The arguments of the timer: each command is timed on a fresh copy, and a
/// command that matches nothing counts as well.
pub open spec fn timer_args(
    runs: nat,
    work: Seq<char>,
    pristine: Seq<char>,
    export: Seq<char>,
    cs: Seq<(Seq<char>, Seq<char>)>,
) -> Seq<Seq<char>> {
    seq![
        "--ignore-failure"@,
        "--warmup"@,
        "1"@,
        "--min-runs"@,
        strings::decimal(runs),
        "--prepare"@,
        "rm -rf "@ + work + " && cp -r "@ + pristine + " "@ + work,
        "--export-json"@,
        export,
    ] + command_args(cs, cs.len() as int)
}

/// Writes the arguments of the timer.
pub fn build_timer_args(
    runs: usize,
    work: &str,
    pristine: &str,
    export: &str,
    commands: &Vec<ToolCommand>,
) -> (r: Vec<String>)
    ensures
        strings::strings_view(r@) == timer_args(
            runs as nat,
            work@,
            pristine@,
            export@,
            commands_view(commands@),
        ),
{
    let mut prepare = three("rm -rf ", work, " && cp -r ");
    prepare.append(pristine);
    prepare.append(" ");
    prepare.append(work);
    let mut out: Vec<String> = Vec::new();
    out.push(owned("--ignore-failure"));
    out.push(owned("--warmup"));
    out.push(owned("1"));
    out.push(owned("--min-runs"));
    out.push(to_decimal(runs));
    out.push(owned("--prepare"));
    out.push(prepare);
    out.push(owned("--export-json"));
    out.push(owned(export));
    let ghost head = strings::strings_view(out@);
    let ghost cs = commands_view(commands@);
    proof {
        assert(head =~= seq![
            "--ignore-failure"@,
            "--warmup"@,
            "1"@,
            "--min-runs"@,
            strings::decimal(runs as nat),
            "--prepare"@,
            "rm -rf "@ + work@ + " && cp -r "@ + pristine@ + " "@ + work@,
            "--export-json"@,
            export@,
        ]);
        assert(head =~= head + command_args(cs, 0));
    }
    let total = commands.len();
    let mut i: usize = 0;
    while i < total
        invariant
            total == commands@.len(),
            i <= total,
            cs == commands_view(commands@),
            strings::strings_view(out@) == head + command_args(cs, i as int),
        decreases total - i,
    {
        let ghost before = out@;
        out.push(owned("--command-name"));
        out.push(commands[i].tool.clone());
        out.push(commands[i].command.clone());
        proof {
            assert(cs[i as int] == (commands@[i as int].tool@, commands@[i as int].command@));
            assert(strings::strings_view(out@) =~= strings::strings_view(before) + seq![
                "--command-name"@,
                cs[i as int].0,
                cs[i as int].1,
            ]);
            assert(head + command_args(cs, i + 1) =~= strings::strings_view(before) + seq![
                "--command-name"@,
                cs[i as int].0,
                cs[i as int].1,
            ]);
        }
        i += 1;
    }
    out
}

// ---------------------------------------------------------------------------
// Laws
// ---------------------------------------------------------------------------

/// A file of the tree grows by a line at a time: by one with a needle at every
/// tenth line, from the first on, where it has needles, and else by a filler.
pub proof fn law_every_tenth_line_has_a_needle(n: int, with_needles: bool)
    requires
        0 <= n,
    ensures
        with_needles && n % 10 == 0 ==> tree_text(n + 1, with_needles) == tree_text(n, with_needles)
            + "a needle line that will be edited\n"@,
        !with_needles || n % 10 != 0 ==> tree_text(n + 1, with_needles) == tree_text(n, with_needles)
            + "plain filler content on this line\n"@,
        tree_text(0, with_needles).len() == 0,
{
}

/// There is a command for the program itself, and one for each other tool that
/// was found and for no other, in a fixed order.
pub proof fn law_found_tools_are_timed(work: Seq<char>, ripsed: Seq<char>, pattern: Seq<char>, tools: Tools)
    ensures
        ({
            let tree = tree_commands(work, ripsed, pattern, tools);
            let big = big_commands(work, ripsed, tools);
            let sed = if tools.sed {
                1int
            } else {
                0int
            };
            let sd = if tools.sd {
                1int
            } else {
                0int
            };
            let perl = if tools.perl {
                1int
            } else {
                0int
            };
            &&& tree.len() == 1 + sed + sd + perl
            &&& big.len() == 1 + sed + sd + perl
            &&& tree[0].0 == "ripsed"@ && big[0].0 == "ripsed"@
            &&& tools.sed ==> tree[1].0 == "sed"@ && big[1].0 == "sed"@
            &&& tools.sd ==> tree[1 + sed].0 == "sd"@ && big[1 + sed].0 == "sd"@
            &&& tools.perl ==> tree[1 + sed + sd].0 == "perl"@ && big[1 + sed + sd].0 == "perl"@
        }),
{
}

/// Each command is handed to the timer under its name, in order.
pub proof fn law_commands_are_named(cs: Seq<(Seq<char>, Seq<char>)>, n: int, k: int)
    requires
        0 <= k < n <= cs.len(),
    ensures
        command_args(cs, n).len() == 3 * n,
        command_args(cs, n)[3 * k] == "--command-name"@,
        command_args(cs, n)[3 * k + 1] == cs[k].0,
        command_args(cs, n)[3 * k + 2] == cs[k].1,
    decreases n,
{
    if n > 1 {
        law_commands_are_named(
            cs,
            n - 1,
            if k < n - 1 {
                k
            } else {
                0
            },
        );
    } else {
        assert(command_args(cs, 0).len() == 0);
    }
}

} // verus!
