//! Globs: which files an operation is for, and which are left out.
use vstd::prelude::*;
use vstd::utf8::*;

use crate::error;
use crate::offsets;
use crate::offsets::text_len;
use crate::strings;

verus! {

// ---------------------------------------------------------------------------
// Nested braces
// ---------------------------------------------------------------------------

/// No glob compiles that holds something inside more braces than this: the
/// regular expression that it stands for would nest deeper than the regular
/// expression engine allows.
pub const MAX_NESTING: usize = 250;

/// Compiling a glob recurses as deep as its braces nest, also where they hold
/// nothing. Deeper than this the stack may not last.
pub const MAX_BRACES: usize = 1000;

/// Compiling a glob that holds a literal of some two to the power of 31 bytes
/// ends in a panic. Globs of at most this many bytes are clear of it.
pub const MAX_GLOB_BYTES: usize = 2147479552;

/// How the parser of a glob reads it.
#[derive(Clone, Copy, PartialEq, Eq, Structural)]
pub struct Reading {
    /// Whether a backslash escapes the next character.
    pub escapes: bool,
    /// Whether a bracket that opens a class without an end stands for itself.
    /// It is a mistake otherwise.
    pub lenient: bool,
}

/// How a line of an ignore file is read.
pub open spec fn ignore_reading() -> Reading {
    Reading { escapes: true, lenient: true }
}

/// How a glob is read where a backslash escapes, and where it does not.
pub open spec fn glob_reading(escapes: bool) -> Reading {
    Reading { escapes, lenient: false }
}

/// How deep a glob nests.
#[derive(Clone, Copy, PartialEq, Eq, Structural)]
pub struct Nesting {
    /// How many braces are open at once, at most.
    pub braces: usize,
    /// How many braces are open around a character or a class, at most.
    pub content: usize,
}

/// The greater of two numbers.
pub open spec fn greater(a: usize, b: usize) -> usize {
    if a > b {
        a
    } else {
        b
    }
}

/// How deep two parts of a glob nest.
pub open spec fn both(a: Nesting, b: Nesting) -> Nesting {
    Nesting { braces: greater(a.braces, b.braces), content: greater(a.content, b.content) }
}

/// The position of the first closing bracket from `i` on, or the length.
pub open spec fn bracket_from(glob: Seq<char>, i: int) -> int
    decreases glob.len() - i,
{
    if i >= glob.len() {
        glob.len() as int
    } else if glob[i] == ']' {
        i
    } else {
        bracket_from(glob, i + 1)
    }
}

/// Where the class that opens at `i` is closed, or the length where it is not.
/// Its first character is a member, be it a bracket.
pub open spec fn class_close(glob: Seq<char>, i: int) -> int {
    if i + 1 < glob.len() && (glob[i + 1] == '!' || glob[i + 1] == '^') {
        bracket_from(glob, i + 3)
    } else {
        bracket_from(glob, i + 2)
    }
}

/// How deep a glob nests from position `i` on, with `depth` braces open, and
/// with classes unless one was found without an end. Behind a mistake nothing
/// is read.
pub open spec fn nesting_from(glob: Seq<char>, i: int, depth: usize, classes: bool, r: Reading) -> Nesting
    decreases glob.len() - i,
{
    let here = Nesting { braces: depth, content: depth };
    let none = Nesting { braces: depth, content: 0 };
    if i < 0 || i >= glob.len() {
        none
    } else if glob[i] == '{' {
        both(none, nesting_from(glob, i + 1, (depth + 1) as usize, classes, r))
    } else if glob[i] == '}' {
        if depth == 0 {
            none
        } else {
            both(none, nesting_from(glob, i + 1, (depth - 1) as usize, classes, r))
        }
    } else if glob[i] == ',' && depth > 0 {
        nesting_from(glob, i + 1, depth, classes, r)
    } else if glob[i] == '\\' && r.escapes {
        if i + 1 >= glob.len() {
            none
        } else {
            both(here, nesting_from(glob, i + 2, depth, classes, r))
        }
    } else if glob[i] == '[' && classes {
        if i < class_close(glob, i) < glob.len() {
            both(here, nesting_from(glob, class_close(glob, i) + 1, depth, classes, r))
        } else if r.lenient {
            both(here, nesting_from(glob, i + 1, depth, false, r))
        } else {
            none
        }
    } else {
        both(here, nesting_from(glob, i + 1, depth, classes, r))
    }
}

/// How deep a glob nests.
pub open spec fn nesting(glob: Seq<char>, r: Reading) -> Nesting {
    nesting_from(glob, 0, 0, true, r)
}

/// Whether a glob holds something inside too many braces to compile.
pub open spec fn too_deep(glob: Seq<char>, r: Reading) -> bool {
    nesting(glob, r).content > MAX_NESTING
}

/// Whether a glob can be handed to its compiler: it is not too long, and where
/// it is nested deep, it is so around something.
pub open spec fn is_safe(glob: Seq<char>, r: Reading) -> bool {
    &&& encode_utf8(glob).len() <= MAX_GLOB_BYTES
    &&& nesting(glob, r).braces <= MAX_BRACES || too_deep(glob, r)
}

/// Whether a glob, where there is one, can be used to select files, whichever
/// way a backslash is read.
pub open spec fn can_select(glob: Option<Seq<char>>) -> bool {
    glob matches Some(g) ==> is_safe(g, glob_reading(true)) && is_safe(g, glob_reading(false))
}

/// Whether a pattern, where there is one, can be used to leave files out.
pub open spec fn can_ignore(pattern: Option<Seq<char>>) -> bool {
    pattern matches Some(p) ==> is_safe(p, ignore_reading())
}

/// Finds the first closing bracket.
fn find_bracket(chars: &Vec<char>, from: usize) -> (r: usize)
    ensures
        r == bracket_from(chars@, from as int),
        r <= chars@.len(),
{
    let total = chars.len();
    let mut i: usize = from;
    while i < total
        invariant
            total == chars@.len(),
            bracket_from(chars@, from as int) == bracket_from(chars@, i as int),
        decreases total - i,
    {
        if chars[i] == ']' {
            return i;
        }
        i += 1;
    }
    total
}

/// Finds where a class is closed.
fn find_class_close(chars: &Vec<char>, i: usize) -> (r: usize)
    requires
        i < chars@.len() <= usize::MAX - 3,
    ensures
        r == class_close(chars@, i as int),
        r <= chars@.len(),
{
    if i + 1 < chars.len() && (chars[i + 1] == '!' || chars[i + 1] == '^') {
        find_bracket(chars, i + 3)
    } else {
        find_bracket(chars, i + 2)
    }
}

/// How deep two parts of a glob nest.
fn deeper(n: Nesting, braces: usize, content: usize) -> (r: Nesting)
    ensures
        r == both(n, Nesting { braces, content }),
{
    Nesting {
        braces: if n.braces > braces {
            n.braces
        } else {
            braces
        },
        content: if n.content > content {
            n.content
        } else {
            content
        },
    }
}

/// Measures how deep a glob nests.
fn measure(chars: &Vec<char>, reading: Reading) -> (n: Nesting)
    requires
        chars@.len() <= usize::MAX - 3,
    ensures
        n == nesting(chars@, reading),
{
    let total = chars.len();
    let mut found = Nesting { braces: 0, content: 0 };
    let mut depth: usize = 0;
    let mut classes = true;
    let mut i: usize = 0;
    while i < total
        invariant
            total == chars@.len(),
            total <= usize::MAX - 3,
            i <= total,
            depth <= i,
            nesting(chars@, reading) == both(
                found,
                nesting_from(chars@, i as int, depth, classes, reading),
            ),
        decreases total - i,
    {
        let c = chars[i];
        if c == '{' {
            found = deeper(found, depth, 0);
            depth += 1;
            i += 1;
        } else if c == '}' {
            found = deeper(found, depth, 0);
            if depth == 0 {
                return found;
            }
            depth -= 1;
            i += 1;
        } else if c == ',' && depth > 0 {
            i += 1;
        } else if c == '\\' && reading.escapes {
            if i + 1 >= total {
                return deeper(found, depth, 0);
            }
            found = deeper(found, depth, depth);
            i += 2;
        } else if c == '[' && classes {
            let close = find_class_close(chars, i);
            if i < close && close < total {
                found = deeper(found, depth, depth);
                i = close + 1;
            } else if reading.lenient {
                found = deeper(found, depth, depth);
                classes = false;
                i += 1;
            } else {
                return deeper(found, depth, 0);
            }
        } else {
            found = deeper(found, depth, depth);
            i += 1;
        }
    }
    deeper(found, depth, 0)
}

/// How deep a glob that is not too long nests.
fn measure_text(glob: &str, reading: Reading) -> (n: Nesting)
    requires
        encode_utf8(glob@).len() <= MAX_GLOB_BYTES,
    ensures
        n == nesting(glob@, reading),
{
    let chars = strings::chars_of(glob);
    proof {
        offsets::lemma_encode_len(glob@);
    }
    measure(&chars, reading)
}

/// Tells whether a glob can be handed to its compiler.
fn tell_safe(glob: &str, reading: Reading) -> (b: bool)
    ensures
        b == is_safe(glob@, reading),
{
    if text_len(glob) > MAX_GLOB_BYTES {
        return false;
    }
    let n = measure_text(glob, reading);
    n.braces <= MAX_BRACES || n.content > MAX_NESTING
}

/// Tells whether a glob can be used to select files.
pub fn tell_can_select(glob: &Option<String>) -> (b: bool)
    ensures
        b == can_select(error::opt_view(*glob)),
{
    match glob {
        Some(g) => tell_safe(g.as_str(), Reading { escapes: true, lenient: false }) && tell_safe(
            g.as_str(),
            Reading { escapes: false, lenient: false },
        ),
        None => true,
    }
}

/// Tells whether a pattern can be used to leave files out.
pub fn tell_can_ignore(pattern: &Option<String>) -> (b: bool)
    ensures
        b == can_ignore(error::opt_view(*pattern)),
{
    match pattern {
        Some(p) => tell_safe(p.as_str(), Reading { escapes: true, lenient: true }),
        None => true,
    }
}

// ---------------------------------------------------------------------------
// Compiling and matching
// ---------------------------------------------------------------------------

/// A path or pattern that every platform reads alike: without the characters
/// that separate names on one platform only.
pub open spec fn portable(s: Seq<char>) -> bool {
    &&& !s.contains('\\')
    &&& !s.contains(':')
    &&& !(s.len() >= 2 && s[0] == '/' && s[1] == '/')
}

/// A compiled glob: a `globset::GlobSet` of one.
#[verifier::external_type_specification]
#[verifier::external_body]
pub struct ExGlobSet(globset::GlobSet);

/// The glob that a set of one was compiled from.
pub uninterp spec fn glob_source(set: globset::GlobSet) -> Seq<char>;

/// `globset::GlobBuilder::build` and `GlobSet::new`: whether a glob compiles.
pub uninterp spec fn glob_compiles(glob: Seq<char>) -> bool;

/// `GlobSet::is_match`: whether a path matches a glob in which `*` stops at a
/// slash.
pub uninterp spec fn glob_matches(glob: Seq<char>, path: Seq<char>) -> bool;

/// The verdict of a glob on a path; `None` where the glob does not compile.
pub open spec fn glob_verdict(glob: Seq<char>, path: Seq<char>) -> Option<bool> {
    if glob_compiles(glob) {
        Some(glob_matches(glob, path))
    } else {
        None
    }
}

/// `ignore::gitignore`: whether a pattern, read as a line of an ignore file,
/// ignores a file.
pub uninterp spec fn ignore_verdict(pattern: Seq<char>, path: Seq<char>) -> bool;

/// `std::path::is_separator` tells whether a character separates names on the
/// platform at hand. A slash does on all of them; of other characters nothing
/// is said.
pub assume_specification[ std::path::is_separator ](c: char) -> (b: bool)
    ensures
        c == '/' ==> b,
;

/// `globset::GlobBuilder::build` with `literal_separator(true)`, made a set of
/// one by `GlobSet::new`. Whether a glob compiles is a function of the glob
/// where it is portable, and then holds no backslash; of others nothing is
/// said, since they are read by the rules of the platform.
#[verifier::external_body]
fn compile_glob(glob: &str, escapes: bool) -> (r: Option<globset::GlobSet>)
    requires
        is_safe(glob@, glob_reading(escapes)),
        !too_deep(glob@, glob_reading(escapes)),
    ensures
        r matches Some(set) ==> glob_source(set) == glob@,
        portable(glob@) ==> r is Some == glob_compiles(glob@),
{
    let mut builder = globset::GlobBuilder::new(glob);
    let built = builder.literal_separator(true).backslash_escape(escapes).build().ok()?;
    globset::GlobSet::new([built]).ok()
}

/// `GlobSet::is_match` on a path. What comes back is a function of the glob
/// and the path, for those that are portable.
#[verifier::external_body]
fn is_glob_match(set: &globset::GlobSet, path: &str) -> (b: bool)
    ensures
        portable(glob_source(*set)) && portable(path@) ==> b == glob_matches(
            glob_source(*set),
            path@,
        ),
{
    set.is_match(path)
}

/// `GitignoreBuilder::add_line` and `build`, rooted at the empty path, and
/// `Gitignore::matched` on the path as that of a file. What comes back is a
/// function of the pattern and the path, for those that are portable.
#[verifier::external_body]
fn match_ignore(pattern: &str, path: &str) -> (r: bool)
    requires
        is_safe(pattern@, ignore_reading()),
        !too_deep(pattern@, ignore_reading()),
    ensures
        portable(pattern@) && portable(path@) ==> r == ignore_verdict(pattern@, path@),
{
    ignore::gitignore::GitignoreBuilder::new("")
        .add_line(None, pattern)
        .ok()
        .and_then(|b| b.build().ok())
        .is_some_and(|gi| gi.matched(std::path::Path::new(path), false).is_ignore())
}

/// Whether the answer to a pattern on a path is the right one. A pattern that
/// is too deep to compile ignores nothing. Of patterns and paths that are not
/// portable nothing else is asked.
pub open spec fn answers_ignore(pattern: Seq<char>, path: Seq<char>, ignored: bool) -> bool {
    if too_deep(pattern, ignore_reading()) {
        !ignored
    } else {
        portable(pattern) && portable(path) ==> ignored == ignore_verdict(pattern, path)
    }
}

/// Whether a pattern leaves a file out.
pub fn glob_match(pattern: &str, path: &str) -> (r: bool)
    requires
        is_safe(pattern@, ignore_reading()),
    ensures
        answers_ignore(pattern@, path@, r),
{
    let n = measure_text(pattern, Reading { escapes: true, lenient: true });
    n.content <= MAX_NESTING && match_ignore(pattern, path)
}

/// A file by its path and the last name in it.
#[derive(Debug, Clone, PartialEq, Eq)]
pub struct FileName {
    pub path: String,
    pub name: Option<String>,
}

/// Whether a glob selects a file: its path matches, or else its name does.
/// A glob that does not compile selects every file.
pub open spec fn selects(on_path: Option<bool>, on_name: Option<bool>) -> bool {
    match on_path {
        None => true,
        Some(true) => true,
        Some(false) => on_name == Some(true),
    }
}

/// Whether the verdicts of a glob select a file.
pub fn is_selected(on_path: Option<bool>, on_name: Option<bool>) -> (b: bool)
    ensures
        b == selects(on_path, on_name),
{
    match on_path {
        None => true,
        Some(true) => true,
        Some(false) => match on_name {
            Some(b) => b,
            None => false,
        },
    }
}

/// The verdict of a glob on the name of a file.
pub open spec fn name_verdict(glob: Seq<char>, file: FileName) -> Option<bool> {
    match file.name {
        Some(n) => glob_verdict(glob, n@),
        None => None,
    }
}

/// Whether the answer to a glob on a file is the right one. A glob that is too
/// deep to compile selects every file, as others do that do not compile. Of
/// globs and paths that are not portable nothing is asked.
pub open spec fn answers_glob(glob: Option<Seq<char>>, file: FileName, chosen: bool) -> bool {
    match glob {
        None => chosen,
        Some(g) => if portable(g) && too_deep(g, glob_reading(true)) {
            chosen
        } else {
            portable(g) && portable(file.path@) && (file.name matches Some(n) ==> portable(n@))
                ==> chosen == selects(glob_verdict(g, file.path@), name_verdict(g, file))
        },
    }
}

/// Without a backslash it does not matter whether it escapes.
proof fn lemma_reading_without_backslash(
    glob: Seq<char>,
    i: int,
    depth: usize,
    classes: bool,
    lenient: bool,
)
    requires
        !glob.contains('\\'),
    ensures
        nesting_from(glob, i, depth, classes, Reading { escapes: true, lenient }) == nesting_from(
            glob,
            i,
            depth,
            classes,
            Reading { escapes: false, lenient },
        ),
    decreases glob.len() - i,
{
    if 0 <= i < glob.len() {
        assert(glob.contains(glob[i]));
        if glob[i] == '{' {
            lemma_reading_without_backslash(glob, i + 1, (depth + 1) as usize, classes, lenient);
        } else if glob[i] == '}' {
            if depth > 0 {
                lemma_reading_without_backslash(
                    glob,
                    i + 1,
                    (depth - 1) as usize,
                    classes,
                    lenient,
                );
            }
        } else if glob[i] == '[' && classes {
            if i < class_close(glob, i) < glob.len() {
                lemma_reading_without_backslash(
                    glob,
                    class_close(glob, i) + 1,
                    depth,
                    classes,
                    lenient,
                );
            } else if lenient {
                lemma_reading_without_backslash(glob, i + 1, depth, false, lenient);
            }
        } else {
            lemma_reading_without_backslash(glob, i + 1, depth, classes, lenient);
        }
    }
}

/// Which files a glob selects; without a glob it is every file.
pub fn select_files(glob: &Option<String>, files: &Vec<FileName>) -> (r: Vec<bool>)
    requires
        can_select(error::opt_view(*glob)),
    ensures
        r@.len() == files@.len(),
        forall|k: int| #![trigger r@[k]]
            0 <= k < r@.len() ==> answers_glob(error::opt_view(*glob), files@[k], r@[k]),
{
    let escapes = !std::path::is_separator('\\');
    let set = match glob {
        Some(g) => {
            let n = measure_text(g.as_str(), Reading { escapes, lenient: false });
            proof {
                if portable(g@) {
                    lemma_reading_without_backslash(g@, 0, 0, true, false);
                }
            }
            if n.content <= MAX_NESTING {
                compile_glob(g.as_str(), escapes)
            } else {
                None
            }
        },
        None => None,
    };
    let mut out: Vec<bool> = Vec::new();
    let total = files.len();
    let mut i: usize = 0;
    while i < total
        invariant
            total == files@.len(),
            i <= total,
            out@.len() == i,
            set matches Some(compiled) ==> glob matches Some(g) && glob_source(compiled) == g@ && (
            portable(g@) ==> glob_compiles(g@) && !too_deep(g@, glob_reading(true))),
            set is None ==> (glob matches Some(g) ==> portable(g@) ==> !glob_compiles(g@)
                || too_deep(g@, glob_reading(true))),
            forall|k: int| #![trigger out@[k]]
                0 <= k < i ==> answers_glob(error::opt_view(*glob), files@[k], out@[k]),
        decreases total - i,
    {
        let (on_path, on_name) = match &set {
            Some(compiled) => (
                Some(is_glob_match(compiled, files[i].path.as_str())),
                match &files[i].name {
                    Some(n) => Some(is_glob_match(compiled, n.as_str())),
                    None => None,
                },
            ),
            None => (None, None),
        };
        out.push(is_selected(on_path, on_name));
        i += 1;
    }
    out
}

} // verus!
