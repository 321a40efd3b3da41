//! Scripts.
use ripsed::operation::{Op, ReplaceCount, TransformMode};
use ripsed::script::{parse_script, parse_script_line, strip_inline_comment, tokenize};

// ── Comment and blank line handling ──

#[test]
fn empty_script_produces_no_ops() {
    let script = parse_script("").unwrap();
    assert!(script.operations.is_empty());
}

#[test]
fn comments_and_blank_lines_are_skipped() {
    let input = r#"
# This is a comment
   # Indented comment

# Another comment
"#;
    let script = parse_script(input).unwrap();
    assert!(script.operations.is_empty());
}

#[test]
fn inline_comments_are_stripped() {
    let input = r#"replace "old" "new" # this is a comment"#;
    let script = parse_script(input).unwrap();
    assert_eq!(script.operations.len(), 1);
    if let Op::Replace { find, replace, .. } = &script.operations[0].op {
        assert_eq!(find, "old");
        assert_eq!(replace, "new");
    } else {
        panic!("expected Replace op");
    }
}

#[test]
fn hash_inside_quotes_is_not_a_comment() {
    let input = r#"replace "old#value" "new#value""#;
    let script = parse_script(input).unwrap();
    assert_eq!(script.operations.len(), 1);
    if let Op::Replace { find, replace, .. } = &script.operations[0].op {
        assert_eq!(find, "old#value");
        assert_eq!(replace, "new#value");
    } else {
        panic!("expected Replace op");
    }
}

// ── Quoted string handling ──

#[test]
fn double_quoted_strings_with_spaces() {
    let input = r#"replace "hello world" "goodbye world""#;
    let script = parse_script(input).unwrap();
    if let Op::Replace { find, replace, .. } = &script.operations[0].op {
        assert_eq!(find, "hello world");
        assert_eq!(replace, "goodbye world");
    } else {
        panic!("expected Replace op");
    }
}

#[test]
fn single_quoted_strings() {
    let input = "replace 'hello world' 'goodbye world'";
    let script = parse_script(input).unwrap();
    if let Op::Replace { find, replace, .. } = &script.operations[0].op {
        assert_eq!(find, "hello world");
        assert_eq!(replace, "goodbye world");
    } else {
        panic!("expected Replace op");
    }
}

#[test]
fn escaped_quotes_in_double_quotes() {
    let input = r#"replace "say \"hello\"" "say \"goodbye\"""#;
    let script = parse_script(input).unwrap();
    if let Op::Replace { find, replace, .. } = &script.operations[0].op {
        assert_eq!(find, r#"say "hello""#);
        assert_eq!(replace, r#"say "goodbye""#);
    } else {
        panic!("expected Replace op");
    }
}

#[test]
fn unquoted_strings() {
    let input = "replace old_name new_name";
    let script = parse_script(input).unwrap();
    if let Op::Replace { find, replace, .. } = &script.operations[0].op {
        assert_eq!(find, "old_name");
        assert_eq!(replace, "new_name");
    } else {
        panic!("expected Replace op");
    }
}

// ── Replace operation ──

#[test]
fn parse_replace_basic() {
    let input = r#"replace "old" "new""#;
    let script = parse_script(input).unwrap();
    assert_eq!(script.operations.len(), 1);
    let op = &script.operations[0].op;
    assert_eq!(
        *op,
        Op::Replace {
            count: Default::default(),
            multiline: false,
            find: "old".to_string(),
            replace: "new".to_string(),
            regex: false,
            case_insensitive: false,
        }
    );
}

#[test]
fn parse_replace_with_multiline_flag() {
    for flag in ["--multiline", "-U"] {
        let input = format!(r#"replace {flag} "old" "new""#);
        let script = parse_script(&input).unwrap();
        assert!(
            script.operations[0].op.is_multiline(),
            "{flag} should set multiline"
        );
    }
}

#[test]
fn parse_delete_with_multiline_flag() {
    let input = r#"delete -U "start.*end" -e"#;
    let script = parse_script(input).unwrap();
    let op = &script.operations[0].op;
    assert!(op.is_multiline());
    assert!(op.is_regex());
}

#[test]
fn parse_count_flags_on_replace() {
    for (flag, expected) in [
        ("--first", ReplaceCount::FirstPerLine),
        ("--first-in-file", ReplaceCount::FirstInFile),
        ("--max-replacements 3", ReplaceCount::Max(3)),
    ] {
        let input = format!(r#"replace {flag} "old" "new""#);
        let script = parse_script(&input).unwrap();
        match &script.operations[0].op {
            Op::Replace { count, .. } => assert_eq!(*count, expected, "flag {flag}"),
            other => panic!("expected Replace, got {other:?}"),
        }
    }
}

#[test]
fn parse_count_flags_rejected_for_non_replace() {
    let err = parse_script(r#"delete "x" --first"#).unwrap_err();
    assert!(err.message.contains("replace only"));
}

#[test]
fn parse_max_replacements_zero_rejected() {
    let err = parse_script(r#"replace "a" "b" --max-replacements 0"#).unwrap_err();
    assert!(err.message.contains("at least 1"));
}

#[test]
fn parse_first_with_multiline_rejected() {
    let err = parse_script(r#"replace "a" "b" --first -U"#).unwrap_err();
    assert!(err.message.contains("cannot be combined"));
}

#[test]
fn parse_multiline_rejected_for_line_scoped_ops() {
    for line in [
        r#"transform "x" --mode upper --multiline"#,
        r#"insert_after "x" "y" -U"#,
        r#"indent "x" --amount 2 --multiline"#,
    ] {
        let err = parse_script(line).unwrap_err();
        assert!(
            err.message.contains("--multiline is not supported"),
            "expected multiline rejection for {line:?}, got: {}",
            err.message
        );
    }
}

#[test]
fn parse_replace_with_regex() {
    let input = r#"replace -e "fn\s+old_(\w+)" "fn new_$1""#;
    let script = parse_script(input).unwrap();
    let op = &script.operations[0].op;
    assert_eq!(
        *op,
        Op::Replace {
            count: Default::default(),
            multiline: false,
            find: r"fn\s+old_(\w+)".to_string(),
            replace: "fn new_$1".to_string(),
            regex: true,
            case_insensitive: false,
        }
    );
}

#[test]
fn parse_replace_with_case_insensitive() {
    let input = r#"replace -i "hello" "goodbye""#;
    let script = parse_script(input).unwrap();
    let op = &script.operations[0].op;
    assert!(op.is_case_insensitive());
}

#[test]
fn parse_replace_with_glob() {
    let input = r#"replace "old" "new" --glob "*.rs""#;
    let script = parse_script(input).unwrap();
    assert_eq!(script.operations[0].glob, Some("*.rs".to_string()));
}

// ── Delete operation ──

#[test]
fn parse_delete_basic() {
    let input = r#"delete "console.log""#;
    let script = parse_script(input).unwrap();
    assert_eq!(
        script.operations[0].op,
        Op::Delete {
            multiline: false,
            find: "console.log".to_string(),
            regex: false,
            case_insensitive: false,
        }
    );
}

#[test]
fn parse_delete_with_regex() {
    let input = r#"delete -e "^\s*//\s*TODO:.*$""#;
    let script = parse_script(input).unwrap();
    let op = &script.operations[0].op;
    assert!(op.is_regex());
    assert_eq!(op.find_pattern(), r"^\s*//\s*TODO:.*$");
}

// ── InsertAfter operation ──

#[test]
fn parse_insert_after() {
    let input = r#"insert_after "use serde;" "use serde_json;""#;
    let script = parse_script(input).unwrap();
    assert_eq!(
        script.operations[0].op,
        Op::InsertAfter {
            find: "use serde;".to_string(),
            content: "use serde_json;".to_string(),
            regex: false,
            case_insensitive: false,
        }
    );
}

// ── InsertBefore operation ──

#[test]
fn parse_insert_before() {
    let input = r#"insert_before "fn main" "// Entry point""#;
    let script = parse_script(input).unwrap();
    assert_eq!(
        script.operations[0].op,
        Op::InsertBefore {
            find: "fn main".to_string(),
            content: "// Entry point".to_string(),
            regex: false,
            case_insensitive: false,
        }
    );
}

// ── ReplaceLine operation ──

#[test]
fn parse_replace_line() {
    let input = r#"replace_line "version = 1" "version = 2""#;
    let script = parse_script(input).unwrap();
    assert_eq!(
        script.operations[0].op,
        Op::ReplaceLine {
            find: "version = 1".to_string(),
            content: "version = 2".to_string(),
            regex: false,
            case_insensitive: false,
        }
    );
}

// ── Transform operation ──

#[test]
fn parse_transform() {
    let input = r#"transform "functionName" --mode snake_case"#;
    let script = parse_script(input).unwrap();
    assert_eq!(
        script.operations[0].op,
        Op::Transform {
            find: "functionName".to_string(),
            mode: TransformMode::SnakeCase,
            regex: false,
            case_insensitive: false,
        }
    );
}

#[test]
fn parse_transform_upper() {
    let input = r#"transform "hello" --mode upper"#;
    let script = parse_script(input).unwrap();
    if let Op::Transform { mode, .. } = &script.operations[0].op {
        assert_eq!(*mode, TransformMode::Upper);
    } else {
        panic!("expected Transform op");
    }
}

// ── Surround operation ──

#[test]
fn parse_surround() {
    let input = r#"surround "word" --prefix "(" --suffix ")""#;
    let script = parse_script(input).unwrap();
    assert_eq!(
        script.operations[0].op,
        Op::Surround {
            find: "word".to_string(),
            prefix: "(".to_string(),
            suffix: ")".to_string(),
            regex: false,
            case_insensitive: false,
        }
    );
}

// ── Indent operation ──

#[test]
fn parse_indent_with_amount() {
    let input = r#"indent "nested" --amount 4"#;
    let script = parse_script(input).unwrap();
    assert_eq!(
        script.operations[0].op,
        Op::Indent {
            find: "nested".to_string(),
            amount: 4,
            use_tabs: false,
            regex: false,
            case_insensitive: false,
        }
    );
}

#[test]
fn parse_indent_default_amount() {
    let input = r#"indent "nested""#;
    let script = parse_script(input).unwrap();
    if let Op::Indent { amount, .. } = &script.operations[0].op {
        assert_eq!(*amount, 4);
    } else {
        panic!("expected Indent op");
    }
}

// ── Dedent operation ──

#[test]
fn parse_dedent() {
    let input = r#"dedent "over_indented" --amount 2"#;
    let script = parse_script(input).unwrap();
    assert_eq!(
        script.operations[0].op,
        Op::Dedent {
            find: "over_indented".to_string(),
            amount: 2,
            use_tabs: false,
            regex: false,
            case_insensitive: false,
        }
    );
}

// ── Multi-operation script ──

#[test]
fn parse_multi_operation_script() {
    let input = r#"
# Rename old_name to new_name
replace "old_name" "new_name"

# Remove debug lines
delete -e "^\s*console\.log"

# Add import
insert_after "use serde;" "use serde_json;"
"#;
    let script = parse_script(input).unwrap();
    assert_eq!(script.operations.len(), 3);

    assert!(matches!(script.operations[0].op, Op::Replace { .. }));
    assert!(matches!(script.operations[1].op, Op::Delete { .. }));
    assert!(matches!(script.operations[2].op, Op::InsertAfter { .. }));
}

// ── Error cases ──

#[test]
fn error_unknown_operation() {
    let input = r#"frobnicate "hello" "world""#;
    let err = parse_script(input).unwrap_err();
    assert!(err.message.contains("unknown operation"));
    assert!(err.message.contains("line 1"));
}

#[test]
fn error_missing_args_for_replace() {
    let input = r#"replace "only_one_arg""#;
    let err = parse_script(input).unwrap_err();
    assert!(err.message.contains("requires 2 argument"));
    assert!(err.message.contains("line 1"));
}

#[test]
fn error_missing_args_for_delete() {
    let input = "delete";
    let err = parse_script(input).unwrap_err();
    assert!(err.message.contains("requires 1 argument"));
}

#[test]
fn error_transform_missing_mode() {
    let input = r#"transform "hello""#;
    let err = parse_script(input).unwrap_err();
    assert!(err.message.contains("--mode"));
}

#[test]
fn error_transform_invalid_mode() {
    let input = r#"transform "hello" --mode invalid_mode"#;
    let err = parse_script(input).unwrap_err();
    assert!(err.message.contains("unknown transform mode"));
}

#[test]
fn error_surround_missing_prefix() {
    let input = r#"surround "word" --suffix ")""#;
    let err = parse_script(input).unwrap_err();
    assert!(err.message.contains("--prefix"));
}

#[test]
fn error_surround_missing_suffix() {
    let input = r#"surround "word" --prefix "("")"#;
    let err = parse_script(input).unwrap_err();
    assert!(err.message.contains("--suffix"));
}

#[test]
fn error_unknown_flag() {
    let input = r#"replace --unknown "hello" "world""#;
    let err = parse_script(input).unwrap_err();
    assert!(err.message.contains("unknown flag"));
}

#[test]
fn error_glob_missing_value() {
    let input = r#"replace "a" "b" --glob"#;
    let err = parse_script(input).unwrap_err();
    assert!(err.message.contains("--glob requires a value"));
}

#[test]
fn error_invalid_amount() {
    let input = r#"indent "hello" --amount abc"#;
    let err = parse_script(input).unwrap_err();
    assert!(err.message.contains("invalid --amount"));
}

#[test]
fn error_line_number_is_correct() {
    let input = "# comment\n\nreplace \"a\" \"b\"\nbad_op \"x\"";
    let err = parse_script(input).unwrap_err();
    assert!(
        err.message.contains("line 4"),
        "Error should reference line 4, got: {}",
        err.message
    );
}

// ── Tokenizer tests ──

#[test]
fn tokenize_simple() {
    let tokens = tokenize("replace old new");
    assert_eq!(tokens, vec!["replace", "old", "new"]);
}

#[test]
fn tokenize_double_quoted() {
    let tokens = tokenize(r#"replace "hello world" "goodbye world""#);
    assert_eq!(tokens, vec!["replace", "hello world", "goodbye world"]);
}

#[test]
fn tokenize_single_quoted() {
    let tokens = tokenize("replace 'hello world' 'goodbye world'");
    assert_eq!(tokens, vec!["replace", "hello world", "goodbye world"]);
}

#[test]
fn tokenize_mixed_quotes() {
    let tokens = tokenize(r#"replace 'find this' "replace that""#);
    assert_eq!(tokens, vec!["replace", "find this", "replace that"]);
}

#[test]
fn tokenize_escaped_double_quote() {
    let tokens = tokenize(r#"replace "say \"hi\"" new"#);
    assert_eq!(tokens, vec!["replace", r#"say "hi""#, "new"]);
}

#[test]
fn tokenize_flags() {
    let tokens = tokenize(r#"replace -e "pattern" "replacement" --glob "*.rs""#);
    assert_eq!(
        tokens,
        vec!["replace", "-e", "pattern", "replacement", "--glob", "*.rs"]
    );
}

#[test]
fn tokenize_empty_string() {
    let tokens = tokenize(r#"replace "" "new""#);
    assert_eq!(tokens, vec!["replace", "", "new"]);
}

// ── Combination flags ──

#[test]
fn parse_replace_regex_case_insensitive_glob() {
    let input = r#"replace -e -i "pattern" "replacement" --glob "*.txt""#;
    let script = parse_script(input).unwrap();
    let sop = &script.operations[0];
    assert!(sop.op.is_regex());
    assert!(sop.op.is_case_insensitive());
    assert_eq!(sop.glob, Some("*.txt".to_string()));
}

#[test]
fn parse_long_form_flags() {
    let input = r#"replace --regex --case-insensitive "a" "b""#;
    let script = parse_script(input).unwrap();
    let op = &script.operations[0].op;
    assert!(op.is_regex());
    assert!(op.is_case_insensitive());
}

#[test]
fn parse_indent_with_use_tabs() {
    let input = r#"indent "nested" --amount 1 --use-tabs"#;
    let script = parse_script(input).unwrap();
    if let Op::Indent {
        amount, use_tabs, ..
    } = &script.operations[0].op
    {
        assert_eq!(*amount, 1);
        assert!(*use_tabs);
    } else {
        panic!("expected Indent op");
    }
}

// ── Comments, flags and scripts put together ──

#[test]
fn single_quotes_have_no_escapes_in_comments_either() {
    let line = r"replace 'a\' 'b # c'";
    assert_eq!(strip_inline_comment(line), line);
    assert_eq!(tokenize(line), vec!["replace", r"a\", "b # c"]);
    assert_eq!(strip_inline_comment(r#"replace "a\" # b" c # d"#), r#"replace "a\" # b" c"#);
}

#[test]
fn stripping_twice_is_stripping_once() {
    for line in ["replace a b # c # d", "# only", "no comment", "a '#' # b  ", ""] {
        let once = strip_inline_comment(line);
        assert!(line.starts_with(&once));
        assert_eq!(strip_inline_comment(&once), once);
    }
}

#[test]
fn flags_stand_anywhere_on_a_line() {
    let a = parse_script_line("replace -e --glob *.rs x y -i", 1).unwrap();
    let b = parse_script_line("replace x -e y --glob *.rs -i", 1).unwrap();
    assert_eq!(a.op, b.op);
    assert_eq!(a.glob, b.glob);
    assert_eq!(a.glob.as_deref(), Some("*.rs"));
}

#[test]
fn scripts_can_be_put_together() {
    let a = "replace a b # first\r";
    let b = "delete c\n\n";
    let joined = parse_script(&format!("{a}\n{b}")).unwrap().operations;
    let mut parts = parse_script(a).unwrap().operations;
    parts.extend(parse_script(b).unwrap().operations);
    assert_eq!(joined.len(), 2);
    for (x, y) in joined.iter().zip(&parts) {
        assert_eq!(x.op, y.op);
        assert_eq!(x.glob, y.glob);
    }
}

#[test]
fn script_multiline_rejected_for_transform() {
    assert!(parse_script("transform -U x --mode upper").is_err());
}
