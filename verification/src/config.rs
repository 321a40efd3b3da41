//! Settings of a project.
use vstd::prelude::*;

use crate::lines;
use crate::lines::split_lines;
use crate::script;
use crate::script::trimmed_chars;
use crate::strings;
use crate::strings::{owned, str_eq, string_of, to_decimal};

verus! {

/// Defaults for options that are not given on the command line.
#[derive(Debug, Clone, Copy, PartialEq, Eq, Structural)]
pub struct DefaultsConfig {
    pub gitignore: bool,
    pub backup: bool,
    pub max_depth: Option<usize>,
    /// Files of at least this many bytes are streamed where they can be (0: none).
    pub stream_min_bytes: u64,
}

/// Settings of the undo log.
#[derive(Debug, Clone, Copy, PartialEq, Eq, Structural)]
pub struct UndoConfig {
    /// How many records are kept.
    pub max_entries: usize,
    /// Texts over this many bytes are not recorded (0: no cap).
    pub max_file_bytes: u64,
}

/// Settings of a project.
#[derive(Debug, Clone, Copy, PartialEq, Eq, Structural)]
pub struct Config {
    pub defaults: DefaultsConfig,
    pub undo: UndoConfig,
}

/// 64 MiB.
pub const LARGE_FILE_BYTES: u64 = 67108864;

impl Default for Config {
    fn default() -> (c: Config)
        ensures
            c == default_config(),
    {
        Config {
            defaults: DefaultsConfig {
                gitignore: true,
                backup: false,
                max_depth: None,
                stream_min_bytes: LARGE_FILE_BYTES,
            },
            undo: UndoConfig { max_entries: 100, max_file_bytes: LARGE_FILE_BYTES },
        }
    }
}

/// The settings where nothing is set.
pub open spec fn default_config() -> Config {
    Config {
        defaults: DefaultsConfig {
            gitignore: true,
            backup: false,
            max_depth: None,
            stream_min_bytes: LARGE_FILE_BYTES,
        },
        undo: UndoConfig { max_entries: 100, max_file_bytes: LARGE_FILE_BYTES },
    }
}

/// The value of a switch.
pub open spec fn switch_value(s: Seq<char>) -> Option<bool> {
    if s == "true"@ {
        Some(true)
    } else if s == "false"@ {
        Some(false)
    } else {
        None
    }
}

/// Reads the value of a switch.
fn read_switch(s: &str) -> (r: Option<bool>)
    ensures
        r == switch_value(s@),
{
    if str_eq(s, "true") {
        Some(true)
    } else if str_eq(s, "false") {
        Some(false)
    } else {
        None
    }
}

/// Whether a character is a decimal digit.
pub open spec fn is_digit(c: char) -> bool {
    '0' <= c <= '9'
}

/// Whether a text is a number in decimal digits. A single underscore may stand
/// between two digits, and a zero in front stands alone.
pub open spec fn is_number(s: Seq<char>) -> bool {
    &&& s.len() > 0
    &&& is_digit(s[0])
    &&& s[0] == '0' ==> s.len() == 1
    &&& forall|i: int| #![trigger s[i]]
        0 <= i < s.len() ==> is_digit(s[i]) || s[i] == '_' && i + 1 < s.len() && is_digit(s[i + 1])
}

/// The number in the first `n` characters.
pub open spec fn number_upto(s: Seq<char>, n: int) -> nat
    decreases n,
{
    if n <= 0 {
        0
    } else if is_digit(s[n - 1]) {
        number_upto(s, n - 1) * 10 + (s[n - 1] as nat - 48) as nat
    } else {
        number_upto(s, n - 1)
    }
}

/// The value of a number, which may have a plus sign in front.
pub open spec fn number_value(s: Seq<char>) -> Option<u64> {
    let d = strings::unsigned_part(s);
    let n = number_upto(d, d.len() as int);
    if is_number(d) && n <= u64::MAX {
        Some(n as u64)
    } else {
        None
    }
}

/// The value of a number that counts things in memory.
pub open spec fn count_value(s: Seq<char>) -> Option<usize> {
    match number_value(s) {
        Some(n) => if n <= usize::MAX {
            Some(n as usize)
        } else {
            None
        },
        None => None,
    }
}

proof fn lemma_number_grows(s: Seq<char>, m: int, n: int)
    requires
        0 <= m <= n <= s.len(),
    ensures
        number_upto(s, m) <= number_upto(s, n),
    decreases n,
{
    if m < n {
        lemma_number_grows(s, m, n - 1);
    }
}

/// Reads a number.
fn read_number(s: &str) -> (r: Option<u64>)
    ensures
        r == number_value(s@),
{
    let chars = strings::chars_of(s);
    let total = chars.len();
    let first: usize = if total > 0 && chars[0] == '+' {
        1
    } else {
        0
    };
    let ghost d = strings::unsigned_part(s@);
    proof {
        assert(forall|k: int| 0 <= k < d.len() ==> d[k] == #[trigger] chars@[k + first]);
    }
    if first >= total || chars[first] < '0' || chars[first] > '9' {
        return None;
    }
    if chars[first] == '0' && total - first > 1 {
        return None;
    }
    let mut value: u64 = 0;
    let mut i: usize = first;
    while i < total
        invariant
            total == chars@.len(),
            first <= i <= total,
            d.len() == total - first,
            d.len() > 0,
            forall|k: int| 0 <= k < d.len() ==> d[k] == #[trigger] chars@[k + first],
            is_digit(d[0]),
            d[0] == '0' ==> d.len() == 1,
            d == strings::unsigned_part(s@),
            value == number_upto(d, i - first),
            forall|k: int| #![trigger d[k]]
                0 <= k < i - first ==> is_digit(d[k]) || d[k] == '_' && k + 1 < d.len() && is_digit(
                    d[k + 1],
                ),
        decreases total - i,
    {
        let c = chars[i];
        let ghost at = i - first;
        proof {
            assert(d[at] == chars@[at + first]);
        }
        if '0' <= c && c <= '9' {
            let v: u64 = (c as u32 - 48) as u64;
            proof {
                lemma_number_grows(d, at + 1, d.len() as int);
            }
            if value > u64::MAX / 10 {
                return None;
            }
            let scaled: u64 = value * 10;
            if scaled > u64::MAX - v {
                return None;
            }
            value = scaled + v;
        } else {
            if c != '_' || i + 1 >= total {
                return None;
            }
            let after = chars[i + 1];
            proof {
                assert(d[at + 1] == chars@[at + 1 + first]);
            }
            if after < '0' || after > '9' {
                return None;
            }
        }
        i += 1;
    }
    Some(value)
}

/// Reads a number that counts things in memory.
fn read_count(s: &str) -> (r: Option<usize>)
    ensures
        r == count_value(s@),
{
    match read_number(s) {
        Some(n) => if n <= usize::MAX as u64 {
            Some(n as usize)
        } else {
            None
        },
        None => None,
    }
}

/// Settings with one of them set, `None` where the value is of the wrong type.
/// A name that is not known is passed over.
pub open spec fn with_setting(
    c: Config,
    section: Seq<char>,
    key: Seq<char>,
    value: Seq<char>,
) -> Option<Config> {
    let d = c.defaults;
    let u = c.undo;
    if section == "defaults"@ && key == "gitignore"@ {
        match switch_value(value) {
            Some(b) => Some(Config { defaults: DefaultsConfig { gitignore: b, ..d }, ..c }),
            None => None,
        }
    } else if section == "defaults"@ && key == "backup"@ {
        match switch_value(value) {
            Some(b) => Some(Config { defaults: DefaultsConfig { backup: b, ..d }, ..c }),
            None => None,
        }
    } else if section == "defaults"@ && key == "max_depth"@ {
        match count_value(value) {
            Some(n) => Some(Config { defaults: DefaultsConfig { max_depth: Some(n), ..d }, ..c }),
            None => None,
        }
    } else if section == "defaults"@ && key == "stream_min_bytes"@ {
        match number_value(value) {
            Some(n) => Some(
                Config { defaults: DefaultsConfig { stream_min_bytes: n, ..d }, ..c },
            ),
            None => None,
        }
    } else if section == "undo"@ && key == "max_entries"@ {
        match count_value(value) {
            Some(n) => Some(Config { undo: UndoConfig { max_entries: n, ..u }, ..c }),
            None => None,
        }
    } else if section == "undo"@ && key == "max_file_bytes"@ {
        match number_value(value) {
            Some(n) => Some(Config { undo: UndoConfig { max_file_bytes: n, ..u }, ..c }),
            None => None,
        }
    } else {
        Some(c)
    }
}

/// Sets one of the settings.
pub fn set_setting(c: Config, section: &str, key: &str, value: &str) -> (r: Option<Config>)
    ensures
        r == with_setting(c, section@, key@, value@),
{
    let mut c = c;
    let in_defaults = str_eq(section, "defaults");
    let in_undo = str_eq(section, "undo");
    if in_defaults && str_eq(key, "gitignore") {
        match read_switch(value) {
            Some(b) => {
                c.defaults.gitignore = b;
            },
            None => {
                return None;
            },
        }
    } else if in_defaults && str_eq(key, "backup") {
        match read_switch(value) {
            Some(b) => {
                c.defaults.backup = b;
            },
            None => {
                return None;
            },
        }
    } else if in_defaults && str_eq(key, "max_depth") {
        match read_count(value) {
            Some(n) => {
                c.defaults.max_depth = Some(n);
            },
            None => {
                return None;
            },
        }
    } else if in_defaults && str_eq(key, "stream_min_bytes") {
        match read_number(value) {
            Some(n) => {
                c.defaults.stream_min_bytes = n;
            },
            None => {
                return None;
            },
        }
    } else if in_undo && str_eq(key, "max_entries") {
        match read_count(value) {
            Some(n) => {
                c.undo.max_entries = n;
            },
            None => {
                return None;
            },
        }
    } else if in_undo && str_eq(key, "max_file_bytes") {
        match read_number(value) {
            Some(n) => {
                c.undo.max_file_bytes = n;
            },
            None => {
                return None;
            },
        }
    }
    Some(c)
}

/// The position of the first `c` from `i` on, or the length of the text.
pub open spec fn first_char(s: Seq<char>, c: char, i: int) -> int
    decreases s.len() - i,
{
    if i < 0 || i >= s.len() {
        s.len() as int
    } else if s[i] == c {
        i
    } else {
        first_char(s, c, i + 1)
    }
}

/// Finds the first `c`.
fn find_char(chars: &Vec<char>, c: char) -> (r: usize)
    ensures
        r == first_char(chars@, c, 0),
        r <= chars@.len(),
{
    let total = chars.len();
    let mut i: usize = 0;
    while i < total && chars[i] != c
        invariant
            total == chars@.len(),
            i <= total,
            first_char(chars@, c, 0) == first_char(chars@, c, i as int),
        decreases total - i,
    {
        i += 1;
    }
    i
}

/// What one line of a settings file says.
#[verifier::ext_equal]
pub enum LineView {
    /// Nothing.
    Blank,
    /// The settings that follow are of this section.
    Section(Seq<char>),
    /// A setting.
    Setting(Seq<char>, Seq<char>),
    /// Something else.
    Malformed,
}

/// What one line of a settings file says: `[section]` or `key = value`; what
/// stands behind a hash sign is a comment.
pub open spec fn line_says(line: Seq<char>) -> LineView {
    let s = script::trim(line.take(first_char(line, '#', 0)));
    let e = first_char(s, '=', 0);
    if s.len() == 0 {
        LineView::Blank
    } else if s.len() >= 2 && s[0] == '[' && s.last() == ']' {
        LineView::Section(script::trim(s.subrange(1, s.len() - 1)))
    } else if e < s.len() {
        LineView::Setting(script::trim(s.take(e)), script::trim(s.skip(e + 1)))
    } else {
        LineView::Malformed
    }
}

/// What is said of a line that cannot be read.
pub open spec fn bad_line(number: nat, line: Seq<char>) -> Seq<char> {
    "invalid setting on line "@ + strings::decimal(number) + ": '"@ + line + "'"@
}

/// The section and the settings behind the first `n` lines, or what is wrong
/// with one of them.
pub open spec fn config_after(ls: Seq<Seq<char>>, n: int) -> Result<
    (Seq<char>, Config),
    Seq<char>,
>
    decreases n,
{
    if n <= 0 {
        Ok((Seq::empty(), default_config()))
    } else {
        match config_after(ls, n - 1) {
            Err(e) => Err(e),
            Ok((section, c)) => match line_says(ls[n - 1]) {
                LineView::Blank => Ok((section, c)),
                LineView::Section(s) => Ok((s, c)),
                LineView::Malformed => Err(bad_line(n as nat, ls[n - 1])),
                LineView::Setting(key, value) => match with_setting(c, section, key, value) {
                    Some(d) => Ok((section, d)),
                    None => Err(bad_line(n as nat, ls[n - 1])),
                },
            },
        }
    }
}

/// The settings that a settings file holds, or what is wrong with it.
pub open spec fn config_of(text: Seq<char>) -> Result<Config, Seq<char>> {
    match config_after(lines::lines(text), lines::lines(text).len() as int) {
        Ok((_, c)) => Ok(c),
        Err(e) => Err(e),
    }
}

enum ConfigLine {
    Blank,
    Section(String),
    Setting(String, String),
    Malformed,
}

impl ConfigLine {
    spec fn shown(self) -> LineView {
        match self {
            ConfigLine::Blank => LineView::Blank,
            ConfigLine::Section(s) => LineView::Section(s@),
            ConfigLine::Setting(k, v) => LineView::Setting(k@, v@),
            ConfigLine::Malformed => LineView::Malformed,
        }
    }
}

/// A text without the white space around it.
fn trimmed(s: &str) -> (r: String)
    ensures
        r@ == script::trim(s@),
{
    let chars = trimmed_chars(s);
    let out = string_of(&chars, 0, chars.len());
    proof {
        assert(out@ =~= script::trim(s@));
    }
    out
}

/// Reads one line of a settings file.
fn read_line(line: &str) -> (r: ConfigLine)
    ensures
        r.shown() == line_says(line@),
{
    let all = strings::chars_of(line);
    let end = find_char(&all, '#');
    let visible = string_of(&all, 0, end);
    proof {
        assert(visible@ =~= line@.take(end as int));
    }
    let chars = trimmed_chars(visible.as_str());
    let total = chars.len();
    if total == 0 {
        return ConfigLine::Blank;
    }
    if total >= 2 && chars[0] == '[' && chars[total - 1] == ']' {
        let name = string_of(&chars, 1, total - 1);
        proof {
            assert(name@ =~= chars@.subrange(1, total - 1));
        }
        return ConfigLine::Section(trimmed(name.as_str()));
    }
    let e = find_char(&chars, '=');
    if e < total {
        let key = string_of(&chars, 0, e);
        let value = string_of(&chars, e + 1, total);
        proof {
            assert(key@ =~= chars@.take(e as int));
            assert(value@ =~= chars@.skip(e + 1));
        }
        return ConfigLine::Setting(trimmed(key.as_str()), trimmed(value.as_str()));
    }
    ConfigLine::Malformed
}

/// Writes what is said of a line that cannot be read.
fn write_bad_line(number: usize, line: &str) -> (r: String)
    ensures
        r@ == bad_line(number as nat, line@),
{
    let mut m = owned("invalid setting on line ");
    m.append(to_decimal(number).as_str());
    m.append(": '");
    m.append(line);
    m.append("'");
    m
}

/// A failure in the first lines is a failure of all.
proof fn lemma_config_error(ls: Seq<Seq<char>>, n: int, m: int)
    requires
        n <= m,
        config_after(ls, n) is Err,
    ensures
        config_after(ls, m) == config_after(ls, n),
    decreases m - n,
{
    if n < m {
        lemma_config_error(ls, n, m - 1);
        if m <= 0 {
            assert(false);
        }
    }
}

/// Reads a settings file. It holds sections and settings, one on a line, in
/// the plain forms of TOML: bare names, switches and decimal numbers. Quoted or
/// dotted names and settings over several lines are not read.
pub fn parse_config(text: &str) -> (r: Result<Config, String>)
    ensures
        config_of(text@) == match r {
            Ok(c) => Ok::<Config, Seq<char>>(c),
            Err(e) => Err::<Config, Seq<char>>(e@),
        },
{
    let ls = split_lines(text);
    let ghost all = lines::lines(text@);
    let total = ls.len();
    let mut config = Config::default();
    let mut section = String::new();
    proof {
        assert(strings::strs_view(ls@).len() == ls@.len());
        assert(section@ =~= Seq::<char>::empty());
        assert(config == default_config());
    }
    let mut i: usize = 0;
    while i < total
        invariant
            total == ls@.len() == all.len(),
            strings::strs_view(ls@) == all,
            all == lines::lines(text@),
            i <= total,
            config_after(all, i as int) == Ok::<(Seq<char>, Config), Seq<char>>(
                (section@, config),
            ),
        decreases total - i,
    {
        proof {
            assert(all[i as int] == ls@[i as int]@);
        }
        match read_line(ls[i]) {
            ConfigLine::Blank => {},
            ConfigLine::Section(s) => {
                section = s;
            },
            ConfigLine::Setting(key, value) => {
                match set_setting(config, section.as_str(), key.as_str(), value.as_str()) {
                    Some(c) => {
                        config = c;
                    },
                    None => {
                        proof {
                            lemma_config_error(all, i + 1, total as int);
                        }
                        return Err(write_bad_line(i + 1, ls[i]));
                    },
                }
            },
            ConfigLine::Malformed => {
                proof {
                    lemma_config_error(all, i + 1, total as int);
                }
                return Err(write_bad_line(i + 1, ls[i]));
            },
        }
        i += 1;
    }
    Ok(config)
}

} // verus!
