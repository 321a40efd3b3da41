//! Laws of what comes in: bytes in their encodings, files that are found,
//! settings, and what standard input is taken for.
use vstd::prelude::*;
use vstd::utf8::*;

use crate::cli::Cli;
use crate::config;
use crate::config::Config;
use crate::encoding;
use crate::encoding::DecodeErrorView;
use crate::encoding::SourceEncoding;
use crate::files;
use crate::files::FoundEntry;
use crate::globs;
use crate::globs::FileName;
use crate::lines;
use crate::modes;
use crate::modes::ModeView;
use crate::modes::StdinKind;
use crate::strings;

verus! {

// ---------------------------------------------------------------------------
// Encodings
// ---------------------------------------------------------------------------

/// The first bytes of a file tell its encoding: those of a byte-order mark the
/// encoding of that mark, all others UTF-8 without one.
pub proof fn law_first_bytes_tell_the_encoding(bytes: Seq<u8>)
    ensures
        encoding::detected(bytes) == SourceEncoding::Utf8Bom <==> (bytes.len() >= 3 && bytes[0]
            == 0xEF && bytes[1] == 0xBB && bytes[2] == 0xBF),
        encoding::detected(bytes) == SourceEncoding::Utf16Le <==> (bytes.len() >= 2 && bytes[0]
            == 0xFF && bytes[1] == 0xFE),
        encoding::detected(bytes) == SourceEncoding::Utf16Be <==> (bytes.len() >= 2 && bytes[0]
            == 0xFE && bytes[1] == 0xFF),
{
    let e8 = SourceEncoding::Utf8Bom;
    let le = SourceEncoding::Utf16Le;
    let be = SourceEncoding::Utf16Be;
    if bytes.len() >= 3 {
        assert(bytes.take(3)[0] == bytes[0] && bytes.take(3)[1] == bytes[1] && bytes.take(3)[2]
            == bytes[2]);
        assert(encoding::bom(e8)[0] == 0xEF && encoding::bom(e8)[1] == 0xBB && encoding::bom(e8)[2]
            == 0xBF);
        if bytes[0] == 0xEF && bytes[1] == 0xBB && bytes[2] == 0xBF {
            assert(bytes.take(3) =~= encoding::bom(e8));
        }
    }
    if bytes.len() >= 2 {
        assert(bytes.take(2)[0] == bytes[0] && bytes.take(2)[1] == bytes[1]);
        assert(encoding::bom(le)[0] == 0xFF && encoding::bom(le)[1] == 0xFE);
        assert(encoding::bom(be)[0] == 0xFE && encoding::bom(be)[1] == 0xFF);
        if bytes[0] == 0xFF && bytes[1] == 0xFE {
            assert(bytes.take(2) =~= encoding::bom(le));
        }
        if bytes[0] == 0xFE && bytes[1] == 0xFF {
            assert(bytes.take(2) =~= encoding::bom(be));
        }
    }
}

/// Text is written in UTF-8 as its bytes, with the mark in front where there
/// was one.
pub proof fn law_utf8_is_written(text: Seq<char>)
    ensures
        encoding::encoded(text, SourceEncoding::Utf8) == encode_utf8(text),
        encoding::encoded(text, SourceEncoding::Utf8Bom) == seq![0xEFu8, 0xBBu8, 0xBFu8]
            + encode_utf8(text),
{
    assert(encoding::encoded(text, SourceEncoding::Utf8) =~= encode_utf8(text));
}

/// In UTF-16 a character of the basic plane is two bytes, the low one first in
/// little-endian and the high one first in big-endian; an empty text is the
/// mark alone.
pub proof fn law_utf16_is_written(text: Seq<char>, c: char)
    requires
        (c as u32) < 0x10000,
    ensures
        ({
            let low = (c as u32 % 256) as u8;
            let high = (c as u32 / 256) as u8;
            &&& encoding::encoded(seq![c] + text, SourceEncoding::Utf16Le) == seq![
                0xFFu8,
                0xFEu8,
                low,
                high,
            ] + encoding::encoded(text, SourceEncoding::Utf16Le).skip(2)
            &&& encoding::encoded(seq![c] + text, SourceEncoding::Utf16Be) == seq![
                0xFEu8,
                0xFFu8,
                high,
                low,
            ] + encoding::encoded(text, SourceEncoding::Utf16Be).skip(2)
        }),
        encoding::encoded(Seq::empty(), SourceEncoding::Utf16Le) == seq![0xFFu8, 0xFEu8],
        encoding::encoded(Seq::empty(), SourceEncoding::Utf16Be) == seq![0xFEu8, 0xFFu8],
{
    let s = seq![c] + text;
    let u = c as u32 as u16;
    let rest = encoding::utf16_units(text);
    assert(s.skip(1) =~= text);
    assert(encoding::utf16_units(s) =~= seq![u] + rest);
    assert((seq![u] + rest).skip(1) =~= rest);
    assert((seq![u] + rest)[0] == u);
    assert(encoding::units_bytes(seq![u] + rest, false) =~= encoding::unit_bytes(u, false)
        + encoding::units_bytes(rest, false));
    assert(encoding::units_bytes(seq![u] + rest, true) =~= encoding::unit_bytes(u, true)
        + encoding::units_bytes(rest, true));
    let low = (c as u32 % 256) as u8;
    let high = (c as u32 / 256) as u8;
    assert(encoding::encoded(s, SourceEncoding::Utf16Le) =~= seq![0xFFu8, 0xFEu8, low, high]
        + encoding::encoded(text, SourceEncoding::Utf16Le).skip(2));
    assert(encoding::encoded(s, SourceEncoding::Utf16Be) =~= seq![0xFEu8, 0xFFu8, high, low]
        + encoding::encoded(text, SourceEncoding::Utf16Be).skip(2));
    assert(encoding::utf16_units(Seq::<char>::empty()) =~= Seq::<u16>::empty());
    assert(encoding::encoded(Seq::empty(), SourceEncoding::Utf16Le) =~= seq![0xFFu8, 0xFEu8]);
    assert(encoding::encoded(Seq::empty(), SourceEncoding::Utf16Be) =~= seq![0xFEu8, 0xFFu8]);
}

/// UTF-8 is refused where it is not valid, UTF-16 where a byte is missing;
/// neither is refused for the other's reason.
pub proof fn law_what_is_refused(bytes: Seq<u8>)
    ensures
        encoding::detected(bytes) == SourceEncoding::Utf8 ==> (encoding::decoded(bytes) is Ok
            <==> valid_utf8(bytes)),
        encoding::detected(bytes) == SourceEncoding::Utf8Bom ==> (encoding::decoded(bytes) is Ok
            <==> valid_utf8(bytes.skip(3))),
        encoding::detected(bytes) == SourceEncoding::Utf16Le || encoding::detected(bytes)
            == SourceEncoding::Utf16Be ==> (bytes.len() % 2 == 1 <==> encoding::decoded(bytes)
            == Err::<Seq<char>, DecodeErrorView>(DecodeErrorView::TruncatedUtf16)),
{
    law_first_bytes_tell_the_encoding(bytes);
    assert(bytes.skip(0) =~= bytes);
}

// ---------------------------------------------------------------------------
// Lines and numbers
// ---------------------------------------------------------------------------

/// A text is split at its newlines: the first line is what stands before the
/// first newline, without a carriage return at its end, and the others are the
/// lines of the rest. A last line needs no newline.
pub proof fn law_text_is_split_at_newlines(line: Seq<char>, rest: Seq<char>)
    requires
        !line.contains('\n'),
    ensures
        lines::lines(line + seq!['\r', '\n'] + rest) == seq![line] + lines::lines(rest),
        line.len() == 0 || line.last() != '\r' ==> lines::lines(line + seq!['\n'] + rest) == seq![
            line,
        ] + lines::lines(rest),
        line.len() > 0 ==> lines::lines(line) == seq![line],
        lines::lines(Seq::empty()).len() == 0,
{
    let n = line.len() as int;
    assert forall|k: int| 0 <= k < n implies line[k] != '\n' by {
        assert(line.contains(line[k]));
    }
    let crlf = line + seq!['\r', '\n'];
    let lf = line + seq!['\n'];
    let a = crlf + rest;
    let b = lf + rest;
    assert(a[n + 1] == '\n' && a[n] == '\r');
    assert(b[n] == '\n');
    lines::lemma_first_newline_is(a, 0, n + 1);
    lines::lemma_first_newline_is(b, 0, n);
    lines::lemma_first_newline_is(line, 0, n);
    lemma_lines_move(crlf, rest, 0);
    lemma_lines_move(lf, rest, 0);
    assert(a.subrange(0, n) =~= line);
    if n > 0 {
        assert(b[n - 1] == line.last());
    }
    assert(b.subrange(0, n) =~= line);
    assert(line.subrange(0, n) =~= line);
    assert(lines::lines_from(line, n + 1) =~= Seq::<Seq<char>>::empty());
    assert(lines::lines(line + seq!['\r', '\n'] + rest) =~= seq![line] + lines::lines(rest));
    if n == 0 || line.last() != '\r' {
        assert(lines::lines(b) =~= seq![line] + lines::lines(rest));
    }
    if n > 0 {
        assert(lines::lines(line) =~= seq![line]);
    }
}

/// Lines do not hang on what stands before them.
proof fn lemma_lines_move(a: Seq<char>, s: Seq<char>, b: int)
    requires
        0 <= b,
    ensures
        lines::lines_from(a + s, a.len() + b) == lines::lines_from(s, b),
    decreases s.len() + 1 - b,
{
    if b < s.len() {
        lemma_newline_moves(a, s, b);
        lines::lemma_first_newline(s, b);
        let e = lines::first_newline(s, b);
        lemma_lines_move(a, s, e + 1);
        let c = lines::content_end(s, b, e);
        assert((a + s).subrange(a.len() + b, a.len() + c) =~= s.subrange(b, c));
    }
}

/// A newline is found at the same place behind another text.
proof fn lemma_newline_moves(a: Seq<char>, s: Seq<char>, i: int)
    requires
        0 <= i,
    ensures
        i <= s.len() ==> lines::first_newline(a + s, a.len() + i) == a.len() + lines::first_newline(s, i),
    decreases s.len() - i,
{
    if i < s.len() {
        lemma_newline_moves(a, s, i + 1);
    }
}

/// A number is read back as it is written, with or without a plus sign, where
/// it fits; nothing else than digits is a number.
pub proof fn law_numbers_are_read(n: usize, s: Seq<char>, k: int)
    ensures
        strings::usize_value(strings::decimal(n as nat)) == Some(n),
        strings::usize_value(seq!['+'] + strings::decimal(n as nat)) == Some(n),
        strings::usize_value(Seq::empty()) is None,
        0 < k < s.len() && !('0' <= s[k] <= '9') ==> strings::usize_value(s) is None,
        s.len() > 0 && s[0] != '+' && !('0' <= s[0] <= '9') ==> strings::usize_value(s) is None,
        strings::all_digits(s) && strings::digits_value(s) > usize::MAX ==> strings::usize_value(s)
            is None,
{
    let d = strings::decimal(n as nat);
    strings::law_decimal_reads_back(n as nat);
    assert((seq!['+'] + d).skip(1) =~= d);
    let u = strings::unsigned_part(s);
    if 0 < k < s.len() && !('0' <= s[k] <= '9') {
        if s[0] == '+' {
            assert(u[k - 1] == s[k]);
        } else {
            assert(u[k] == s[k]);
        }
    }
    if s.len() > 0 && s[0] != '+' && !('0' <= s[0] <= '9') {
        assert(u[0] == s[0]);
    }
}

// ---------------------------------------------------------------------------
// Files
// ---------------------------------------------------------------------------

/// Data with a zero among its first 8192 bytes is no text, unless it starts
/// with a byte-order mark of UTF-16.
pub proof fn law_zero_byte_is_binary(bytes: Seq<u8>, k: int)
    requires
        0 <= k < bytes.len(),
        k < 8192,
        bytes[k] == 0,
    ensures
        files::is_binary_data(bytes) <==> !((bytes[0] == 0xFF && bytes.len() >= 2 && bytes[1] == 0xFE)
            || (bytes[0] == 0xFE && bytes.len() >= 2 && bytes[1] == 0xFF)),
{
    law_first_bytes_tell_the_encoding(bytes);
    lemma_utf16_marks(bytes);
}

/// Data without a zero among its first 8192 bytes is text.
pub proof fn law_no_zero_byte_is_text(bytes: Seq<u8>)
    requires
        forall|k: int| #![trigger bytes[k]] 0 <= k < bytes.len() && k < 8192 ==> bytes[k] != 0,
    ensures
        !files::is_binary_data(bytes),
{
}

/// The marks of UTF-16, byte by byte.
proof fn lemma_utf16_marks(bytes: Seq<u8>)
    ensures
        encoding::has_bom(bytes, SourceEncoding::Utf16Le) <==> (bytes.len() >= 2 && bytes[0] == 0xFF
            && bytes[1] == 0xFE),
        encoding::has_bom(bytes, SourceEncoding::Utf16Be) <==> (bytes.len() >= 2 && bytes[0] == 0xFE
            && bytes[1] == 0xFF),
{
    if bytes.len() >= 2 {
        let le = encoding::bom(SourceEncoding::Utf16Le);
        let be = encoding::bom(SourceEncoding::Utf16Be);
        assert(bytes.take(2)[0] == bytes[0] && bytes.take(2)[1] == bytes[1]);
        assert(le[0] == 0xFF && le[1] == 0xFE && be[0] == 0xFE && be[1] == 0xFF);
        if bytes[0] == 0xFF && bytes[1] == 0xFE {
            assert(bytes.take(2) =~= le);
        }
        if bytes[0] == 0xFE && bytes[1] == 0xFF {
            assert(bytes.take(2) =~= be);
        }
    }
}

/// What is found is edited where it is a file of text that no pattern leaves
/// out and that is not one of the lock files of a run.
pub proof fn law_text_files_are_edited(entry: FoundEntry, ignored: bool, stem: Seq<char>)
    ensures
        files::is_text_file(entry, ignored) ==> entry.is_file && !ignored && entry.binary == Some(
            false,
        ),
        (entry.name matches Some(n) && n@ == stem + ".ripsed.lock"@) ==> !files::is_text_file(
            entry,
            ignored,
        ),
        entry.is_file && !ignored && entry.binary == Some(false) && !files::is_text_file(
            entry,
            ignored,
        ) ==> (entry.name matches Some(n) && exists|s: Seq<char>| n@ == #[trigger] (s
            + ".ripsed.lock"@)),
        entry.name is None && entry.is_file && !ignored && entry.binary == Some(false)
            ==> files::is_text_file(entry, ignored),
{
    let suffix = ".ripsed.lock"@;
    if entry.name is Some {
        let n = entry.name->0@;
        if n == stem + suffix {
            assert(n.skip(n.len() - suffix.len()) =~= suffix);
        }
        if files::ends_with(n, suffix) {
            let s = n.take(n.len() - suffix.len());
            assert(n =~= s + suffix);
        }
    }
}

/// The first backup of a file has the name of the file and a suffix; those
/// that follow have a number too.
pub proof fn law_backup_names(path: Seq<char>, n: nat)
    requires
        n > 0,
    ensures
        files::backup_name(path, 0) == path + ".ripsed.bak"@,
        files::backup_name(path, n) == files::backup_name(path, 0) + "."@ + strings::decimal(n),
{
}

/// A path in a directory is the directory, one slash and the name.
pub proof fn law_path_in_a_directory(dir: Seq<char>, name: Seq<char>)
    ensures
        dir.len() > 0 && dir.last() != '/' ==> files::joined_path(dir, name) == dir + "/"@ + name,
        dir.len() > 0 && dir.last() == '/' ==> files::joined_path(dir, name) == dir + name,
        files::joined_path(Seq::empty(), name) == name,
{
    assert(Seq::<char>::empty() + name =~= name);
}

/// A file is chosen where its path or its name matches, and where the pattern
/// does not compile.
pub proof fn law_path_or_name_is_enough(on_path: bool, on_name: bool)
    ensures
        globs::selects(Some(on_path), Some(on_name)) <==> on_path || on_name,
        globs::selects(Some(on_path), None) <==> on_path,
        globs::selects(None, Some(on_name)),
        globs::selects(None, None),
{
}

/// Without a pattern every file is chosen; with one, a file whose path matches
/// is, and one of which neither path nor name matches is not.
pub proof fn law_pattern_chooses(glob: Seq<char>, file: FileName, chosen: bool)
    requires
        globs::portable(glob),
        globs::portable(file.path@),
        file.name matches Some(n) ==> globs::portable(n@),
        !globs::too_deep(glob, globs::glob_reading(true)),
    ensures
        globs::answers_glob(None, file, chosen) <==> chosen,
        globs::glob_compiles(glob) && globs::glob_matches(glob, file.path@) ==> (
        globs::answers_glob(Some(glob), file, chosen) <==> chosen),
        globs::glob_compiles(glob) && !globs::glob_matches(glob, file.path@) && (
        file.name matches Some(n) ==> !globs::glob_matches(glob, n@)) ==> (globs::answers_glob(
            Some(glob),
            file,
            chosen,
        ) <==> !chosen),
        globs::glob_compiles(glob) && (file.name matches Some(n) && globs::glob_matches(glob, n@))
            ==> (globs::answers_glob(Some(glob), file, chosen) <==> chosen),
        !globs::glob_compiles(glob) ==> (globs::answers_glob(Some(glob), file, chosen) <==> chosen),
{
}

// ---------------------------------------------------------------------------
// Settings
// ---------------------------------------------------------------------------

/// Where nothing is set, files that Git ignores are left out, no backups are
/// made, there is no limit of depth, a hundred records are kept for undo, and
/// files from 64 MiB on are streamed and not recorded.
pub proof fn law_defaults()
    ensures
        config::config_of(Seq::empty()) == Ok::<Config, Seq<char>>(config::default_config()),
        config::default_config().defaults.gitignore,
        !config::default_config().defaults.backup,
        config::default_config().defaults.max_depth is None,
        config::default_config().defaults.stream_min_bytes == 67108864,
        config::default_config().undo.max_entries == 100,
        config::default_config().undo.max_file_bytes == 67108864,
{
    assert(crate::lines::lines(Seq::<char>::empty()) =~= Seq::<Seq<char>>::empty());
}

/// Switches are set by `true` and `false` and by nothing else; each setting
/// sets what it names.
pub proof fn law_switch_is_set(c: Config, other: Seq<char>)
    requires
        other != "true"@,
        other != "false"@,
    ensures
        ({
            let on = config::with_setting(c, "defaults"@, "gitignore"@, "true"@);
            let off = config::with_setting(c, "defaults"@, "gitignore"@, "false"@);
            &&& on is Some && on->0.defaults.gitignore
            &&& off is Some && !off->0.defaults.gitignore
            &&& on->0.defaults.backup == c.defaults.backup
            &&& off->0.defaults.backup == c.defaults.backup
        }),
        ({
            let on = config::with_setting(c, "defaults"@, "backup"@, "true"@);
            let off = config::with_setting(c, "defaults"@, "backup"@, "false"@);
            &&& on is Some && on->0.defaults.backup
            &&& off is Some && !off->0.defaults.backup
            &&& on->0.defaults.gitignore == c.defaults.gitignore
            &&& off->0.defaults.gitignore == c.defaults.gitignore
        }),
        config::with_setting(c, "defaults"@, "gitignore"@, other) is None,
        config::with_setting(c, "defaults"@, "backup"@, other) is None,
{
    reveal_strlit("true");
    reveal_strlit("false");
    reveal_strlit("gitignore");
    reveal_strlit("backup");
    assert("true"@[0] == 't' && "false"@[0] == 'f');
    assert("gitignore"@[0] == 'g' && "backup"@[0] == 'b');
}

/// Numbers are set by digits that fit; each setting sets what it names.
pub proof fn law_number_is_set(c: Config, value: Seq<char>, n: u64)
    requires
        config::number_value(value) == Some(n),
        n <= usize::MAX,
    ensures
        ({
            let r = config::with_setting(c, "defaults"@, "max_depth"@, value);
            r is Some && r->0.defaults.max_depth == Some(n as usize) && r->0.undo == c.undo
                && r->0.defaults.stream_min_bytes == c.defaults.stream_min_bytes
                && r->0.defaults.gitignore == c.defaults.gitignore && r->0.defaults.backup
                == c.defaults.backup
        }),
        ({
            let r = config::with_setting(c, "defaults"@, "stream_min_bytes"@, value);
            r is Some && r->0.defaults.stream_min_bytes == n && r->0.undo == c.undo
                && r->0.defaults.max_depth == c.defaults.max_depth && r->0.defaults.gitignore
                == c.defaults.gitignore && r->0.defaults.backup == c.defaults.backup
        }),
        ({
            let r = config::with_setting(c, "undo"@, "max_entries"@, value);
            r is Some && r->0.undo.max_entries == n && r->0.defaults == c.defaults
                && r->0.undo.max_file_bytes == c.undo.max_file_bytes
        }),
        ({
            let r = config::with_setting(c, "undo"@, "max_file_bytes"@, value);
            r is Some && r->0.undo.max_file_bytes == n && r->0.defaults == c.defaults
                && r->0.undo.max_entries == c.undo.max_entries
        }),
{
    reveal_strlit("defaults");
    reveal_strlit("undo");
    reveal_strlit("gitignore");
    reveal_strlit("backup");
    reveal_strlit("max_depth");
    reveal_strlit("stream_min_bytes");
    reveal_strlit("max_entries");
    reveal_strlit("max_file_bytes");
    assert("defaults"@.len() != "undo"@.len());
    assert("gitignore"@[0] == 'g' && "max_depth"@[0] == 'm' && "stream_min_bytes"@[0] == 's'
        && "backup"@[0] == 'b');
    assert("max_entries"@.len() != "max_file_bytes"@.len());
}

/// A number grows by a digit as numbers do, and an underscore adds nothing.
pub proof fn law_number_reads_digits(s: Seq<char>, d: char)
    ensures
        '0' <= d <= '9' ==> config::number_upto(s.push(d), s.len() as int + 1)
            == config::number_upto(s, s.len() as int) * 10 + (d as nat - 48),
        config::number_upto(s.push('_'), s.len() as int + 1) == config::number_upto(
            s,
            s.len() as int,
        ),
        config::number_upto(Seq::empty(), 0) == 0,
{
    lemma_number_prefix(s, d, s.len() as int);
    lemma_number_prefix(s, '_', s.len() as int);
}

/// A number hangs on its first characters alone, up to their end.
proof fn lemma_number_prefix(s: Seq<char>, d: char, n: int)
    requires
        0 <= n <= s.len(),
    ensures
        config::number_upto(s.push(d), n) == config::number_upto(s, n),
    decreases n,
{
    if n > 0 {
        lemma_number_prefix(s, d, n - 1);
        assert(s.push(d)[n - 1] == s[n - 1]);
    }
}

/// A setting that nobody knows is passed over.
pub proof fn law_unknown_settings_are_passed_over(
    c: Config,
    section: Seq<char>,
    key: Seq<char>,
    value: Seq<char>,
)
    requires
        section != "defaults"@ && section != "undo"@,
    ensures
        config::with_setting(c, section, key, value) == Some(c),
{
}

// ---------------------------------------------------------------------------
// Modes
// ---------------------------------------------------------------------------

/// A script, a list of what can be undone, and an undo come before all else,
/// in this order.
pub proof fn law_script_and_undo_come_first(cli: Cli, stdin_is_tty: bool)
    ensures
        modes::mode_of(cli, stdin_is_tty) is Script <==> cli.script is Some,
        cli.script matches Some(s) ==> modes::mode_of(cli, stdin_is_tty) == ModeView::Script(s@),
        modes::mode_of(cli, stdin_is_tty) is UndoList <==> cli.script is None && cli.undo_list,
        modes::mode_of(cli, stdin_is_tty) is Undo <==> cli.script is None && !cli.undo_list
            && cli.undo is Some,
        cli.script is None && !cli.undo_list && cli.undo is Some ==> modes::mode_of(
            cli,
            stdin_is_tty,
        ) == ModeView::Undo(cli.undo->0 as int),
{
}

/// Whether the arguments name neither a script nor an undo.
pub open spec fn is_plain_run(cli: Cli) -> bool {
    cli.script is None && !cli.undo_list && cli.undo is None
}

/// A run is a pipe where that is asked for, and where something is piped in
/// that is no request; requests come from standard input, or from the
/// arguments where there is a terminal; files are edited at a terminal.
pub proof fn law_what_a_run_reads(cli: Cli, stdin_is_tty: bool)
    requires
        is_plain_run(cli),
    ensures
        modes::mode_of(cli, stdin_is_tty) is Pipe <==> cli.pipe || (!stdin_is_tty && !cli.json
            && cli.no_json),
        modes::mode_of(cli, stdin_is_tty) is JsonStdin <==> !cli.pipe && !stdin_is_tty && cli.json,
        modes::mode_of(cli, stdin_is_tty) is JsonMissing <==> !cli.pipe && stdin_is_tty && cli.json
            && cli.json_input is None,
        !cli.pipe && stdin_is_tty && cli.json && cli.json_input is Some ==> modes::mode_of(
            cli,
            stdin_is_tty,
        ) == ModeView::JsonArgument(cli.json_input->0@),
        modes::mode_of(cli, stdin_is_tty) is Files <==> !cli.pipe && stdin_is_tty && !cli.json,
        modes::mode_of(cli, stdin_is_tty) is Detect <==> !cli.pipe && !stdin_is_tty && !cli.json
            && !cli.no_json,
{
}

/// Whether a byte is white space of ASCII.
pub open spec fn is_blank_byte(b: u8) -> bool {
    b == 0x20 || b == 0x09 || b == 0x0A || b == 0x0C || b == 0x0D
}

/// What is piped in is read as a whole where it starts, behind white space,
/// with a brace, or where the operation needs it whole; else it is streamed.
/// With nothing piped in, files are edited.
pub proof fn law_brace_makes_a_request(blanks: Seq<u8>, rest: Seq<u8>, multiline: bool)
    requires
        forall|k: int| #![trigger blanks[k]] 0 <= k < blanks.len() ==> is_blank_byte(blanks[k]),
        rest.len() > 0 && !is_blank_byte(rest[0]),
    ensures
        modes::stdin_kind(blanks + rest, multiline) == StdinKind::Buffered <==> multiline || rest[0]
            == 0x7B,
        modes::stdin_kind(blanks + rest, multiline) == StdinKind::Streamed <==> !multiline && rest[0]
            != 0x7B,
        modes::stdin_kind(Seq::empty(), multiline) == StdinKind::Empty,
        blanks.len() > 0 && !multiline ==> modes::stdin_kind(blanks, false) == StdinKind::Streamed,
{
    lemma_blanks_are_skipped(blanks, rest, 0);
    lemma_blanks_are_skipped(blanks, Seq::empty(), 0);
    assert(blanks + Seq::<u8>::empty() =~= blanks);
}

/// White space is skipped up to the first byte that is none.
proof fn lemma_blanks_are_skipped(blanks: Seq<u8>, rest: Seq<u8>, i: int)
    requires
        0 <= i <= blanks.len(),
        forall|k: int| #![trigger blanks[k]] 0 <= k < blanks.len() ==> is_blank_byte(blanks[k]),
        rest.len() > 0 ==> !is_blank_byte(rest[0]),
    ensures
        modes::first_visible(blanks + rest, i) == blanks.len(),
    decreases blanks.len() - i,
{
    if i < blanks.len() {
        assert((blanks + rest)[i] == blanks[i]);
        lemma_blanks_are_skipped(blanks, rest, i + 1);
    } else if rest.len() > 0 {
        assert((blanks + rest)[i] == rest[0]);
    }
}

/// What is piped in is a request where it is a JSON object that names
/// operations or an undo, and it is then the text as it came.
pub proof fn law_request_names_what_it_wants(data: Seq<u8>)
    ensures
        modes::request_in(data) is Some <==> (valid_utf8(data) && (modes::json_names(
            decode_utf8(data),
        ) matches Some(names) && (names.contains("operations"@) || names.contains("undo"@)))),
        modes::request_in(data) is Some ==> modes::request_in(data)->0 == decode_utf8(data),
{
}

} // verus!
