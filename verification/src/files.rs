//! Files: which are taken up, and the names of those written beside them.
use std::collections::HashSet;
use vstd::prelude::*;
use vstd::std_specs::hash::*;

use crate::cli::copy_opt;
use crate::encoding;
use crate::encoding::has_utf16_bom;
use crate::error;
use crate::globs;
use crate::globs::glob_match;
use crate::operation::OpOptions;
use crate::strings;
use crate::strings::{chars_of, owned, u64_to_decimal};

verus! {

/// How many bytes at the start of a file are looked at to tell text from
/// other data.
pub const BINARY_CHECK_SIZE: usize = 8192;

/// Whether a file holds data other than text: it does not start with a UTF-16
/// byte-order mark, and there is a zero byte among the first
/// [`BINARY_CHECK_SIZE`] bytes.
pub open spec fn is_binary_data(bytes: Seq<u8>) -> bool {
    &&& !encoding::has_bom(bytes, encoding::SourceEncoding::Utf16Le)
    &&& !encoding::has_bom(bytes, encoding::SourceEncoding::Utf16Be)
    &&& exists|k: int| 0 <= k < bytes.len() && k < BINARY_CHECK_SIZE && bytes[k] == 0u8
}

/// Whether a file holds data other than text. The first [`BINARY_CHECK_SIZE`]
/// bytes of the file are enough to tell.
pub fn is_binary(bytes: &[u8]) -> (b: bool)
    ensures
        b == is_binary_data(bytes@),
{
    if has_utf16_bom(bytes) {
        return false;
    }
    let total = if bytes.len() < BINARY_CHECK_SIZE {
        bytes.len()
    } else {
        BINARY_CHECK_SIZE
    };
    let mut i: usize = 0;
    while i < total
        invariant
            total <= bytes@.len(),
            total <= BINARY_CHECK_SIZE,
            i <= total,
            !encoding::has_bom(bytes@, encoding::SourceEncoding::Utf16Le),
            !encoding::has_bom(bytes@, encoding::SourceEncoding::Utf16Be),
            forall|k: int| 0 <= k < i ==> bytes@[k] != 0u8,
        decreases total - i,
    {
        if bytes[i] == 0u8 {
            proof {
                assert(bytes@[i as int] == 0u8);
            }
            return true;
        }
        i += 1;
    }
    false
}

/// The first [`BINARY_CHECK_SIZE`] bytes tell what the whole file would.
pub proof fn law_start_tells_binary(bytes: Seq<u8>)
    ensures
        bytes.len() >= BINARY_CHECK_SIZE ==> is_binary_data(
            bytes.take(BINARY_CHECK_SIZE as int),
        ) == is_binary_data(bytes),
{
    if bytes.len() >= BINARY_CHECK_SIZE {
        let start = bytes.take(BINARY_CHECK_SIZE as int);
        assert(start.take(2) =~= bytes.take(2));
        assert(forall|k: int| 0 <= k < start.len() ==> start[k] == bytes[k]);
        if is_binary_data(bytes) {
            let k = choose|k: int|
                0 <= k < bytes.len() && k < BINARY_CHECK_SIZE && bytes[k] == 0u8;
            assert(start[k] == 0u8);
        }
        if is_binary_data(start) {
            let k = choose|k: int|
                0 <= k < start.len() && k < BINARY_CHECK_SIZE && start[k] == 0u8;
            assert(bytes[k] == 0u8);
        }
    }
}

// ---------------------------------------------------------------------------
// Discovery
// ---------------------------------------------------------------------------

/// Options for file discovery.
#[derive(Debug, Clone, PartialEq, Eq)]
pub struct DiscoveryOptions {
    pub root: String,
    pub glob: Option<String>,
    pub ignore_pattern: Option<String>,
    pub gitignore: bool,
    pub hidden: bool,
    pub max_depth: Option<usize>,
    pub follow_links: bool,
}

/// How files are discovered.
#[derive(Debug, Clone, Copy, PartialEq, Eq, Structural)]
pub enum WalkStrategy {
    /// Leaves the choice to the library.
    Auto,
    /// Always walks in parallel.
    ForceParallel,
}

/// The options for file discovery that the options of an operation ask for,
/// from the current directory where they name no other.
pub fn discovery_opts_from(opts: &OpOptions, cwd: &str) -> (d: DiscoveryOptions)
    ensures
        d.root@ == match opts@.root {
            Some(root) => root,
            None => cwd@,
        },
        error::opt_view(d.glob) == opts@.glob,
        error::opt_view(d.ignore_pattern) == opts@.ignore,
        d.gitignore == opts@.gitignore,
        d.hidden == opts@.hidden,
        d.max_depth == opts@.max_depth,
        !d.follow_links,
{
    DiscoveryOptions {
        root: match &opts.root {
            Some(root) => root.clone(),
            None => owned(cwd),
        },
        glob: copy_opt(&opts.glob),
        ignore_pattern: copy_opt(&opts.ignore),
        gitignore: opts.gitignore,
        hidden: opts.hidden,
        max_depth: opts.max_depth,
        follow_links: false,
    }
}

/// The suffix of the sentinels that files are locked by.
pub open spec fn lock_suffix() -> Seq<char> {
    ".ripsed.lock"@
}

/// Whether a text ends in another.
pub open spec fn ends_with(s: Seq<char>, suffix: Seq<char>) -> bool {
    s.len() >= suffix.len() && s.skip(s.len() - suffix.len()) == suffix
}

/// Tests whether a text ends in another.
fn has_suffix(s: &str, suffix: &str) -> (b: bool)
    ensures
        b == ends_with(s@, suffix@),
{
    let a = chars_of(s);
    let b = chars_of(suffix);
    if a.len() < b.len() {
        return false;
    }
    let len = a.len();
    let total = b.len();
    let from: usize = len - total;
    let mut i: usize = 0;
    while i < total
        invariant
            a@ == s@,
            b@ == suffix@,
            total == b@.len(),
            len == a@.len(),
            from == len - total,
            i <= total <= len,
            forall|k: int| #![trigger suffix@[k]] 0 <= k < i ==> s@[from + k] == suffix@[k],
        decreases total - i,
    {
        if a[from + i] != b[i] {
            proof {
                assert(s@.skip(from as int)[i as int] != suffix@[i as int]);
            }
            return false;
        }
        i += 1;
    }
    proof {
        assert(s@.skip(from as int) =~= suffix@);
    }
    true
}

/// Whether a file name is that of a lock sentinel. Sentinels are never edited.
pub fn is_lock_sentinel(name: Option<&str>) -> (b: bool)
    ensures
        b == (name matches Some(n) && ends_with(n@, lock_suffix())),
{
    match name {
        Some(n) => has_suffix(n, ".ripsed.lock"),
        None => false,
    }
}

/// What tells one file from another under all its names.
#[derive(Debug, Clone, Copy, PartialEq, Eq, Structural)]
pub struct FileIdentity {
    pub device: u64,
    pub inode: u64,
}

/// An entry that a directory walk came across.
#[derive(Debug, Clone, PartialEq, Eq)]
pub struct FoundEntry {
    pub path: String,
    /// The last name in the path, where it is text.
    pub name: Option<String>,
    pub is_file: bool,
    /// Whether the start of the file is that of data other than text; `None`
    /// where it was not read.
    pub binary: Option<bool>,
    /// `None` where it cannot be told.
    pub identity: Option<FileIdentity>,
}

/// Whether an entry is worth reading: a regular file, and no lock sentinel.
pub open spec fn worth_reading(entry: FoundEntry) -> bool {
    entry.is_file && !(entry.name matches Some(n) && ends_with(n@, lock_suffix()))
}

/// Whether an entry is worth reading.
pub fn is_worth_reading(entry: &FoundEntry) -> (b: bool)
    ensures
        b == worth_reading(*entry),
{
    let name = match &entry.name {
        Some(n) => Some(n.as_str()),
        None => None,
    };
    entry.is_file && !is_lock_sentinel(name)
}

/// Whether an entry is a file to work on: worth reading, text, and not left
/// out by the ignore pattern.
pub open spec fn is_text_file(entry: FoundEntry, ignored: bool) -> bool {
    worth_reading(entry) && entry.binary == Some(false) && !ignored
}

/// Whether entry `i` is the first text file of its identity. One whose
/// identity cannot be told counts as a file of its own.
pub open spec fn is_first(entries: Seq<FoundEntry>, ignored: Seq<bool>, i: int) -> bool {
    &&& is_text_file(entries[i], ignored[i])
    &&& entries[i].identity is Some ==> forall|j: int| #![trigger entries[j]]
        0 <= j < i && is_text_file(entries[j], ignored[j]) ==> entries[j].identity
            != entries[i].identity
}

/// The files among the first `n` entries: text files, each under the first
/// path that it was found by.
pub open spec fn discovered(entries: Seq<FoundEntry>, ignored: Seq<bool>, n: int) -> Seq<int>
    decreases n,
{
    if n <= 0 {
        Seq::empty()
    } else if is_first(entries, ignored, n - 1) {
        discovered(entries, ignored, n - 1).push(n - 1)
    } else {
        discovered(entries, ignored, n - 1)
    }
}

/// The key of an identity.
pub open spec fn identity_key(id: FileIdentity) -> int {
    id.device * 0x1_0000_0000_0000_0000 + id.inode
}

/// The key of an identity.
fn key_of(id: FileIdentity) -> (k: u128)
    ensures
        k == identity_key(id),
{
    id.device as u128 * 0x1_0000_0000_0000_0000u128 + id.inode as u128
}

/// Chooses the files to work on, by their numbers, from what a directory walk
/// came across and what the ignore pattern says of each entry.
pub fn choose_files(entries: &Vec<FoundEntry>, ignored: &Vec<bool>) -> (r: Vec<usize>)
    requires
        ignored@.len() == entries@.len(),
    ensures
        r@.map_values(|k: usize| k as int) == discovered(
            entries@,
            ignored@,
            entries@.len() as int,
        ),
{
    broadcast use vstd::std_specs::hash::group_hash_axioms;

    let mut seen: HashSet<u128> = HashSet::new();
    let mut out: Vec<usize> = Vec::new();
    let total = entries.len();
    let mut i: usize = 0;
    proof {
        assert(out@.map_values(|k: usize| k as int) =~= Seq::<int>::empty());
    }
    while i < total
        invariant
            total == entries@.len(),
            ignored@.len() == total,
            i <= total,
            obeys_key_model::<u128>(),
            builds_valid_hashers::<std::hash::RandomState>(),
            forall|j: int| #![trigger entries@[j]]
                0 <= j < i && is_text_file(entries@[j], ignored@[j]) ==> (
                entries@[j].identity matches Some(id) ==> seen@.contains(identity_key(id) as u128)),
            forall|key: u128| #[trigger]
                seen@.contains(key) ==> exists|j: int| #![trigger entries@[j]]
                    0 <= j < i && is_text_file(entries@[j], ignored@[j]) && (
                    entries@[j].identity matches Some(id) && identity_key(id) == key),
            out@.map_values(|k: usize| k as int) == discovered(entries@, ignored@, i as int),
        decreases total - i,
    {
        let entry = &entries[i];
        let text = match entry.binary {
            Some(b) => !b,
            None => false,
        };
        let fresh = if is_worth_reading(entry) && text && !ignored[i] {
            match entry.identity {
                Some(id) => {
                    let key = key_of(id);
                    let ghost before = seen@;
                    let new = seen.insert(key);
                    proof {
                        assert(is_text_file(entries@[i as int], ignored@[i as int]));
                        if before.contains(key) {
                            let j = choose|j: int| #![trigger entries@[j]]
                                0 <= j < i && is_text_file(entries@[j], ignored@[j]) && (
                                entries@[j].identity matches Some(other) && identity_key(other)
                                    == key);
                            assert(entries@[j].identity == entries@[i as int].identity);
                        } else {
                            assert forall|j: int| #![trigger entries@[j]]
                                0 <= j < i && is_text_file(
                                    entries@[j],
                                    ignored@[j],
                                ) implies entries@[j].identity != entries@[i as int].identity by {
                                if entries@[j].identity == entries@[i as int].identity {
                                    assert(before.contains(key));
                                }
                            }
                        }
                        assert forall|k: u128| #[trigger] seen@.contains(k) implies exists|j: int| #![trigger entries@[j]]
                            0 <= j < i + 1 && is_text_file(entries@[j], ignored@[j]) && (
                            entries@[j].identity matches Some(other) && identity_key(other)
                                == k) by {
                            if before.contains(k) {
                                let j = choose|j: int| #![trigger entries@[j]]
                                    0 <= j < i && is_text_file(entries@[j], ignored@[j]) && (
                                    entries@[j].identity matches Some(other) && identity_key(other)
                                        == k);
                                assert(entries@[j].identity is Some);
                            } else {
                                assert(entries@[i as int].identity == Some(id));
                            }
                        }
                    }
                    new
                },
                None => true,
            }
        } else {
            false
        };
        if fresh {
            let ghost before = out@;
            out.push(i);
            proof {
                assert(out@.map_values(|k: usize| k as int) =~= before.map_values(
                    |k: usize| k as int,
                ).push(i as int));
            }
        }
        i += 1;
    }
    out
}

/// Whether the answers of the ignore pattern are those of its engine, for
/// patterns and paths that are portable; without a pattern nothing is ignored.
pub open spec fn answers_pattern(
    entries: Seq<FoundEntry>,
    pattern: Option<Seq<char>>,
    ignored: Seq<bool>,
) -> bool {
    &&& ignored.len() == entries.len()
    &&& forall|k: int| #![trigger ignored[k]]
        0 <= k < ignored.len() ==> match pattern {
            None => !ignored[k],
            Some(p) => globs::answers_ignore(p, entries[k].path@, ignored[k]),
        }
}

/// Chooses the files to work on, by their numbers, from what a directory walk
/// came across.
pub fn discover_files(entries: &Vec<FoundEntry>, opts: &DiscoveryOptions) -> (r: Vec<usize>)
    requires
        globs::can_ignore(error::opt_view(opts.ignore_pattern)),
    ensures
        exists|ignored: Seq<bool>| #[trigger]
            answers_pattern(entries@, error::opt_view(opts.ignore_pattern), ignored)
                && r@.map_values(|k: usize| k as int) == discovered(
                entries@,
                ignored,
                entries@.len() as int,
            ),
{
    let mut ignored: Vec<bool> = Vec::new();
    let total = entries.len();
    let mut i: usize = 0;
    while i < total
        invariant
            globs::can_ignore(error::opt_view(opts.ignore_pattern)),
            total == entries@.len(),
            i <= total,
            ignored@.len() == i,
            forall|k: int| #![trigger ignored@[k]]
                0 <= k < i ==> match error::opt_view(opts.ignore_pattern) {
                    None => !ignored@[k],
                    Some(p) => globs::answers_ignore(p, entries@[k].path@, ignored@[k]),
                },
        decreases total - i,
    {
        let hit = match &opts.ignore_pattern {
            Some(p) => glob_match(p.as_str(), entries[i].path.as_str()),
            None => false,
        };
        ignored.push(hit);
        i += 1;
    }
    proof {
        assert(answers_pattern(entries@, error::opt_view(opts.ignore_pattern), ignored@));
    }
    choose_files(entries, &ignored)
}

/// What is discovered is in order, and all of it is text.
pub proof fn law_discovered_in_order(entries: Seq<FoundEntry>, ignored: Seq<bool>, n: int)
    requires
        0 <= n <= entries.len() == ignored.len(),
    ensures
        forall|k: int| #![trigger discovered(entries, ignored, n)[k]]
            0 <= k < discovered(entries, ignored, n).len() ==> 0 <= discovered(entries, ignored, n)[k]
                < n && is_first(entries, ignored, discovered(entries, ignored, n)[k]),
        forall|k: int, l: int| #![trigger discovered(entries, ignored, n)[k], discovered(entries, ignored, n)[l]]
            0 <= k < l < discovered(entries, ignored, n).len() ==> discovered(entries, ignored, n)[k]
                < discovered(entries, ignored, n)[l],
    decreases n,
{
    if n > 0 {
        law_discovered_in_order(entries, ignored, n - 1);
        let d = discovered(entries, ignored, n);
        let p = discovered(entries, ignored, n - 1);
        assert forall|k: int| 0 <= k < d.len() implies 0 <= #[trigger] d[k] < n && is_first(
            entries,
            ignored,
            d[k],
        ) by {
            if k < p.len() {
                assert(d[k] == p[k]);
            }
        }
        assert forall|k: int, l: int| 0 <= k < l < d.len() implies #[trigger] d[k]
            < #[trigger] d[l] by {
            assert(d[k] == p[k]);
            if l < p.len() {
                assert(d[l] == p[l]);
            }
        }
    }
}

/// No file is discovered twice, under whatever names.
pub proof fn law_discovered_once(entries: Seq<FoundEntry>, ignored: Seq<bool>, n: int, k: int, l: int)
    requires
        0 <= n <= entries.len() == ignored.len(),
        0 <= k < l < discovered(entries, ignored, n).len(),
        entries[discovered(entries, ignored, n)[k]].identity is Some,
    ensures
        entries[discovered(entries, ignored, n)[k]].identity != entries[discovered(
            entries,
            ignored,
            n,
        )[l]].identity,
{
    law_discovered_in_order(entries, ignored, n);
    let a = discovered(entries, ignored, n)[k];
    let b = discovered(entries, ignored, n)[l];
    assert(is_first(entries, ignored, b));
    assert(is_first(entries, ignored, a));
    assert(is_text_file(entries[a], ignored[a]));
}

/// Every text file is discovered, under this path or an earlier one.
pub proof fn law_every_file_is_discovered(entries: Seq<FoundEntry>, ignored: Seq<bool>, n: int, i: int)
    requires
        0 <= i < n <= entries.len() == ignored.len(),
        is_text_file(entries[i], ignored[i]),
    ensures
        exists|k: int| #![trigger discovered(entries, ignored, n)[k]]
            0 <= k < discovered(entries, ignored, n).len() && discovered(entries, ignored, n)[k] <= i
                && (discovered(entries, ignored, n)[k] == i || entries[discovered(
                entries,
                ignored,
                n,
            )[k]].identity == entries[i].identity),
    decreases i, n,
{
    let d = discovered(entries, ignored, n);
    if i < n - 1 {
        law_every_file_is_discovered(entries, ignored, n - 1, i);
        let p = discovered(entries, ignored, n - 1);
        let k = choose|k: int| #![trigger p[k]]
            0 <= k < p.len() && p[k] <= i && (p[k] == i || entries[p[k]].identity
                == entries[i].identity);
        assert(d[k] == p[k]);
    } else if is_first(entries, ignored, i) {
        assert(d[d.len() - 1] == i);
    } else {
        let j = choose|j: int| #![trigger entries[j]]
            0 <= j < i && is_text_file(entries[j], ignored[j]) && entries[j].identity
                == entries[i].identity;
        law_every_file_is_discovered(entries, ignored, n - 1, j);
        let p = discovered(entries, ignored, n - 1);
        let k = choose|k: int| #![trigger p[k]]
            0 <= k < p.len() && p[k] <= j && (p[k] == j || entries[p[k]].identity
                == entries[j].identity);
        assert(d[k] == p[k]);
    }
}

// ---------------------------------------------------------------------------
// Names
// ---------------------------------------------------------------------------

/// A name in a directory.
pub open spec fn joined_path(dir: Seq<char>, name: Seq<char>) -> Seq<char> {
    if dir.len() == 0 || dir.last() == '/' {
        dir + name
    } else {
        dir + "/"@ + name
    }
}

/// Writes a name in a directory.
fn join_path(dir: &str, name: &str) -> (r: String)
    ensures
        r@ == joined_path(dir@, name@),
{
    let chars = chars_of(dir);
    let mut out = owned(dir);
    if chars.len() > 0 && chars[chars.len() - 1] != '/' {
        out.append("/");
    }
    out.append(name);
    out
}

/// The directory of the undo log, in the current directory.
pub fn undo_dir(cwd: &str) -> (r: String)
    ensures
        r@ == joined_path(cwd@, ".ripsed"@),
{
    join_path(cwd, ".ripsed")
}

/// The path of the undo log.
pub fn undo_log_path(cwd: &str) -> (r: String)
    ensures
        r@ == joined_path(joined_path(cwd@, ".ripsed"@), "undo.jsonl"@),
{
    join_path(undo_dir(cwd).as_str(), "undo.jsonl")
}

/// The name of backup number `n` of a file.
pub open spec fn backup_name(path: Seq<char>, n: nat) -> Seq<char> {
    if n == 0 {
        path + ".ripsed.bak"@
    } else {
        path + ".ripsed.bak"@ + "."@ + strings::decimal(n)
    }
}

/// The name that the first backup of a file gets.
pub fn backup_path_for(path: &str) -> (r: String)
    ensures
        r@ == backup_name(path@, 0),
{
    let mut out = owned(path);
    out.append(".ripsed.bak");
    out
}

/// The name to try for a backup where number `taken` exists; `None` where
/// there are too many backups.
pub fn next_backup(path: &str, taken: u32) -> (r: Option<String>)
    ensures
        match r {
            Some(name) => taken < u32::MAX && name@ == backup_name(path@, (taken + 1) as nat),
            None => taken == u32::MAX,
        },
{
    match taken.checked_add(1) {
        Some(n) => {
            let mut out = backup_path_for(path);
            out.append(".");
            out.append(u64_to_decimal(n as u64).as_str());
            Some(out)
        },
        None => None,
    }
}

/// Two backups of a file have different names, so that none overwrites another.
pub proof fn law_backup_names_differ(path: Seq<char>, i: nat, j: nat)
    requires
        backup_name(path, i) == backup_name(path, j),
    ensures
        i == j,
{
    reveal_strlit(".");
    let base = path + ".ripsed.bak"@;
    if i == 0 && j != 0 {
        assert(backup_name(path, j).len() > base.len());
    } else if j == 0 && i != 0 {
        assert(backup_name(path, i).len() > base.len());
    } else if i != 0 {
        let from = (base + "."@).len() as int;
        assert(strings::decimal(i) =~= backup_name(path, i).skip(from));
        assert(strings::decimal(j) =~= backup_name(path, j).skip(from));
        strings::law_decimal_reads_back(i);
        strings::law_decimal_reads_back(j);
    }
}

} // verus!
