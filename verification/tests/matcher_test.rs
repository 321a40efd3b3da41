//! Matching and replacing.
use ripsed::error::ErrorCode;
use ripsed::matcher::Matcher;
use ripsed::operation::Op;

#[test]
fn test_literal_match() {
    let op = Op::Replace {
        count: Default::default(),
        multiline: false,
        find: "hello".to_string(),
        replace: "hi".to_string(),
        regex: false,
        case_insensitive: false,
    };
    let m = Matcher::new(&op).unwrap();
    assert!(m.is_match("say hello world"));
    assert!(!m.is_match("say Hi world"));
}

#[test]
fn test_literal_case_insensitive() {
    let op = Op::Replace {
        count: Default::default(),
        multiline: false,
        find: "hello".to_string(),
        replace: "hi".to_string(),
        regex: false,
        case_insensitive: true,
    };
    let m = Matcher::new(&op).unwrap();
    assert!(m.is_match("say HELLO world"));
    assert!(m.is_match("say Hello world"));
}

#[test]
fn test_regex_match() {
    let op = Op::Replace {
        count: Default::default(),
        multiline: false,
        find: r"fn\s+(\w+)".to_string(),
        replace: "fn new_$1".to_string(),
        regex: true,
        case_insensitive: false,
    };
    let m = Matcher::new(&op).unwrap();
    assert!(m.is_match("fn old_func() {"));
    assert!(!m.is_match("let x = 5;"));
}

#[test]
fn test_regex_replace_with_captures() {
    let op = Op::Replace {
        count: Default::default(),
        multiline: false,
        find: r"fn\s+old_(\w+)".to_string(),
        replace: "fn new_$1".to_string(),
        regex: true,
        case_insensitive: false,
    };
    let m = Matcher::new(&op).unwrap();
    let result = m.replace("fn old_function() {", "fn new_$1");
    assert_eq!(result, Some("fn new_function() {".to_string()));
}

#[test]
fn test_invalid_regex() {
    let op = Op::Replace {
        count: Default::default(),
        multiline: false,
        find: "fn (foo".to_string(),
        replace: "bar".to_string(),
        regex: true,
        case_insensitive: false,
    };
    let err = Matcher::new(&op).unwrap_err();
    assert_eq!(err.code, ErrorCode::InvalidRegex);
}

// ---------------------------------------------------------------
// Empty pattern behavior
// ---------------------------------------------------------------

#[test]
fn test_empty_pattern_literal_matches_everything() {
    let op = Op::Replace {
        count: Default::default(),
        multiline: false,
        find: "".to_string(),
        replace: "x".to_string(),
        regex: false,
        case_insensitive: false,
    };
    let m = Matcher::new(&op).unwrap();
    // An empty string is contained in every string
    assert!(m.is_match("anything"));
    assert!(m.is_match(""));
}

#[test]
fn test_empty_pattern_literal_replace() {
    let op = Op::Replace {
        count: Default::default(),
        multiline: false,
        find: "".to_string(),
        replace: "x".to_string(),
        regex: false,
        case_insensitive: false,
    };
    let m = Matcher::new(&op).unwrap();
    // Rust's str::replace("", "x") inserts "x" between every char and at start/end
    let result = m.replace("ab", "x");
    assert_eq!(result, Some("xaxbx".to_string()));
}

#[test]
fn test_empty_pattern_regex_matches_everything() {
    let op = Op::Replace {
        count: Default::default(),
        multiline: false,
        find: "".to_string(),
        replace: "x".to_string(),
        regex: true,
        case_insensitive: false,
    };
    let m = Matcher::new(&op).unwrap();
    assert!(m.is_match("anything"));
    assert!(m.is_match(""));
}

// ---------------------------------------------------------------
// Pattern that matches entire line
// ---------------------------------------------------------------

#[test]
fn test_pattern_matches_entire_line_literal() {
    let op = Op::Replace {
        count: Default::default(),
        multiline: false,
        find: "hello world".to_string(),
        replace: "goodbye".to_string(),
        regex: false,
        case_insensitive: false,
    };
    let m = Matcher::new(&op).unwrap();
    let result = m.replace("hello world", "goodbye");
    assert_eq!(result, Some("goodbye".to_string()));
}

#[test]
fn test_pattern_matches_entire_line_regex() {
    let op = Op::Replace {
        count: Default::default(),
        multiline: false,
        find: r"^.*$".to_string(),
        replace: "replaced".to_string(),
        regex: true,
        case_insensitive: false,
    };
    let m = Matcher::new(&op).unwrap();
    let result = m.replace("anything here", "replaced");
    assert_eq!(result, Some("replaced".to_string()));
}

#[test]
fn test_regex_anchored_full_line() {
    let op = Op::Replace {
        count: Default::default(),
        multiline: false,
        find: r"^fn main\(\)$".to_string(),
        replace: "fn start()".to_string(),
        regex: true,
        case_insensitive: false,
    };
    let m = Matcher::new(&op).unwrap();
    assert!(m.is_match("fn main()"));
    assert!(!m.is_match("  fn main()")); // leading whitespace
    assert!(!m.is_match("fn main() {")); // trailing content
}

// ---------------------------------------------------------------
// Case-insensitive with unicode (Turkish I problem, etc.)
// ---------------------------------------------------------------

#[test]
fn test_case_insensitive_ascii() {
    let op = Op::Replace {
        count: Default::default(),
        multiline: false,
        find: "Hello".to_string(),
        replace: "hi".to_string(),
        regex: false,
        case_insensitive: true,
    };
    let m = Matcher::new(&op).unwrap();
    assert!(m.is_match("HELLO"));
    assert!(m.is_match("hello"));
    assert!(m.is_match("HeLLo"));
    let result = m.replace("say HELLO there", "hi");
    assert_eq!(result, Some("say hi there".to_string()));
}

#[test]
fn test_case_insensitive_german_eszett() {
    // German sharp-s: lowercase to_lowercase() of "SS" is "ss",
    // and to_lowercase() of "\u{00DF}" (sharp-s) is "\u{00DF}"
    // This tests that the engine handles non-trivial unicode casing
    let op = Op::Replace {
        count: Default::default(),
        multiline: false,
        find: "stra\u{00DF}e".to_string(), // "strasse" with sharp-s
        replace: "street".to_string(),
        regex: false,
        case_insensitive: true,
    };
    let m = Matcher::new(&op).unwrap();
    assert!(m.is_match("STRA\u{00DF}E"));
}

#[test]
fn test_case_insensitive_turkish_i_lowercase() {
    // Turkish dotted I: \u{0130} (capital I with dot above)
    // This is a known edge case. We test that the matcher doesn't panic
    // and behaves consistently with Unicode simple case folding.
    let op = Op::Replace {
        count: Default::default(),
        multiline: false,
        find: "i".to_string(),
        replace: "x".to_string(),
        regex: false,
        case_insensitive: true,
    };
    let m = Matcher::new(&op).unwrap();
    // Standard ASCII: "I" simple-folds to "i", so this matches
    assert!(m.is_match("I"));
    assert!(!m.is_match("\u{0130}"));
}

// ---------------------------------------------------------------
// Regex special characters in literal mode
// ---------------------------------------------------------------

#[test]
fn test_literal_mode_regex_metacharacters() {
    // All these are regex metacharacters but should be treated literally
    let patterns = vec![
        (".", "dot"),
        ("*", "star"),
        ("+", "plus"),
        ("?", "question"),
        ("(", "paren"),
        ("[", "bracket"),
        ("{", "brace"),
        ("^", "caret"),
        ("$", "dollar"),
        ("|", "pipe"),
        ("\\", "backslash"),
    ];
    for (pat, name) in patterns {
        let op = Op::Replace {
        count: Default::default(),
            multiline: false,
            find: pat.to_string(),
            replace: "X".to_string(),
            regex: false,
            case_insensitive: false,
        };
        let m = Matcher::new(&op).unwrap();
        let text = format!("before {pat} after");
        assert!(
            m.is_match(&text),
            "Literal mode should match '{name}' ({pat}) as a literal character"
        );
        let result = m.replace(&text, "X");
        assert_eq!(
            result,
            Some("before X after".to_string()),
            "Literal mode should replace '{name}' ({pat}) as a literal"
        );
    }
}

// ---------------------------------------------------------------
// Multiple matches on same line
// ---------------------------------------------------------------

#[test]
fn test_multiple_matches_same_line() {
    let op = Op::Replace {
        count: Default::default(),
        multiline: false,
        find: "ab".to_string(),
        replace: "X".to_string(),
        regex: false,
        case_insensitive: false,
    };
    let m = Matcher::new(&op).unwrap();
    let result = m.replace("ab cd ab ef ab", "X");
    assert_eq!(result, Some("X cd X ef X".to_string()));
}

#[test]
fn test_replace_with_empty_string() {
    let op = Op::Replace {
        count: Default::default(),
        multiline: false,
        find: "remove".to_string(),
        replace: "".to_string(),
        regex: false,
        case_insensitive: false,
    };
    let m = Matcher::new(&op).unwrap();
    let result = m.replace("please remove this", "");
    assert_eq!(result, Some("please  this".to_string()));
}

#[test]
fn test_no_match_returns_none() {
    let op = Op::Replace {
        count: Default::default(),
        multiline: false,
        find: "xyz".to_string(),
        replace: "abc".to_string(),
        regex: false,
        case_insensitive: false,
    };
    let m = Matcher::new(&op).unwrap();
    assert!(m.replace("nothing here", "abc").is_none());
}

#[test]
fn test_literal_dollar_one_pattern() {
    let op = Op::Replace {
        count: Default::default(),
        multiline: false,
        find: "$1".to_string(),
        replace: "REPLACED".to_string(),
        regex: false,
        case_insensitive: false,
    };
    let m = Matcher::new(&op).unwrap();
    assert!(m.is_match("value is $1 here"));
    let result = m.replace("value is $1 here", "REPLACED");
    assert_eq!(result, Some("value is REPLACED here".to_string()));
}

/// A regex pattern whose replacement string contains `$0`, `$1`, etc.
/// should be interpreted as a capture-backreference in regex mode.
/// This is intended behavior; locking it in so nobody accidentally
/// escapes it.
#[test]
fn test_regex_backreferences_work_in_replace() {
    let op = Op::Replace {
        count: Default::default(),
        multiline: false,
        find: r"hello (\w+)".to_string(),
        replace: "greetings, $1!".to_string(),
        regex: true,
        case_insensitive: false,
    };
    let m = Matcher::new(&op).unwrap();
    let result = m.replace("hello world", "greetings, $1!");
    assert_eq!(result, Some("greetings, world!".to_string()));
}

#[test]
fn test_regex_no_catastrophic_backtracking() {
    let op = Op::Replace {
        count: Default::default(),
        multiline: false,
        find: r"(a+)+$".to_string(),
        replace: "X".to_string(),
        regex: true,
        case_insensitive: false,
    };
    let m = Matcher::new(&op).unwrap();
    // 30 'a's followed by 'b' — classic ReDoS trigger for backtracking engines.
    let mut input = "a".repeat(30);
    input.push('b');
    let start = std::time::Instant::now();
    let result = m.is_match(&input);
    let elapsed = start.elapsed();
    assert!(!result, "pattern should not match 'aaaa...b'");
    // Generous bound — should actually complete in microseconds.
    assert!(
        elapsed < std::time::Duration::from_millis(500),
        "regex took too long ({elapsed:?}) — possible ReDoS"
    );
}

#[test]
fn test_replacement_with_control_chars() {
    let op = Op::Replace {
        count: Default::default(),
        multiline: false,
        find: "placeholder".to_string(),
        replace: "\x07bell\x1bescape\x00nul".to_string(),
        regex: false,
        case_insensitive: false,
    };
    let m = Matcher::new(&op).unwrap();
    let result = m.replace("use placeholder here", "\x07bell\x1bescape\x00nul");
    assert_eq!(
        result,
        Some("use \x07bell\x1bescape\x00nul here".to_string())
    );
}

#[test]
fn test_empty_regex_match_does_not_panic() {
    let op = Op::Replace {
        count: Default::default(),
        multiline: false,
        find: r"(?:)".to_string(),
        replace: "X".to_string(),
        regex: true,
        case_insensitive: false,
    };
    let m = Matcher::new(&op).unwrap();
    // Must not panic — actual content of the result is implementation-defined.
    let _ = m.replace("abc", "X");
}
