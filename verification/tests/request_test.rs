//! Requests.
use ripsed::error::{ErrorCode, RipsedError};
use ripsed::operation::{LineRange, Op, OpOptions, PatternRange, ReplaceCount, TransformMode};
use ripsed::request::{ExtraField, ExtraValue, JsonOp, JsonRequest, UndoRequest};
use serde_json::Value;

fn text(m: &serde_json::Map<String, Value>, key: &str) -> Result<String, String> {
    match m.get(key) {
        Some(Value::String(s)) => Ok(s.clone()),
        Some(_) => Err(format!("invalid type for `{key}`")),
        None => Err(format!("missing field `{key}`")),
    }
}

fn opt_text(m: &serde_json::Map<String, Value>, key: &str) -> Result<Option<String>, String> {
    match m.get(key) {
        Some(Value::Null) | None => Ok(None),
        Some(_) => text(m, key).map(Some),
    }
}

fn flag(m: &serde_json::Map<String, Value>, key: &str, default: bool) -> Result<bool, String> {
    match m.get(key) {
        Some(Value::Bool(b)) => Ok(*b),
        Some(_) => Err(format!("invalid type for `{key}`")),
        None => Ok(default),
    }
}

fn number(m: &serde_json::Map<String, Value>, key: &str) -> Result<Option<usize>, String> {
    match m.get(key) {
        Some(Value::Null) | None => Ok(None),
        Some(v) => match v.as_u64() {
            Some(n) => Ok(Some(n as usize)),
            None => Err(format!("invalid type for `{key}`")),
        },
    }
}

fn count(m: &serde_json::Map<String, Value>) -> Result<ReplaceCount, String> {
    match m.get("count") {
        None => Ok(ReplaceCount::All),
        Some(Value::String(s)) => match s.as_str() {
            "all" => Ok(ReplaceCount::All),
            "first_per_line" => Ok(ReplaceCount::FirstPerLine),
            "first_in_file" => Ok(ReplaceCount::FirstInFile),
            other => Err(format!("unknown variant `{other}`")),
        },
        Some(Value::Object(o)) => match number(o, "max")? {
            Some(n) => Ok(ReplaceCount::Max(n)),
            None => Err("missing field `max`".to_string()),
        },
        Some(_) => Err("invalid type for `count`".to_string()),
    }
}

fn operation(m: &serde_json::Map<String, Value>) -> Result<Op, String> {
    let find = text(m, "find");
    let regex = flag(m, "regex", false)?;
    let case_insensitive = flag(m, "case_insensitive", false)?;
    match text(m, "op")?.as_str() {
        "replace" => Ok(Op::Replace {
            find: find?,
            replace: text(m, "replace")?,
            regex,
            case_insensitive,
            multiline: flag(m, "multiline", false)?,
            count: count(m)?,
        }),
        "delete" => Ok(Op::Delete {
            find: find?,
            regex,
            case_insensitive,
            multiline: flag(m, "multiline", false)?,
        }),
        "insert_after" => {
            Ok(Op::InsertAfter { find: find?, content: text(m, "content")?, regex, case_insensitive })
        }
        "insert_before" => {
            Ok(Op::InsertBefore { find: find?, content: text(m, "content")?, regex, case_insensitive })
        }
        "replace_line" => {
            Ok(Op::ReplaceLine { find: find?, content: text(m, "content")?, regex, case_insensitive })
        }
        "transform" => {
            let mode = match text(m, "mode")?.as_str() {
                "upper" => TransformMode::Upper,
                "lower" => TransformMode::Lower,
                "title" => TransformMode::Title,
                "snake_case" => TransformMode::SnakeCase,
                "camel_case" => TransformMode::CamelCase,
                other => return Err(format!("unknown variant `{other}`")),
            };
            Ok(Op::Transform { find: find?, mode, regex, case_insensitive })
        }
        "surround" => Ok(Op::Surround {
            find: find?,
            prefix: text(m, "prefix")?,
            suffix: text(m, "suffix")?,
            regex,
            case_insensitive,
        }),
        "indent" => Ok(Op::Indent {
            find: find?,
            amount: number(m, "amount")?.unwrap_or(4),
            use_tabs: flag(m, "use_tabs", false)?,
            regex,
            case_insensitive,
        }),
        "dedent" => Ok(Op::Dedent {
            find: find?,
            amount: number(m, "amount")?.unwrap_or(4),
            use_tabs: flag(m, "use_tabs", false)?,
            regex,
            case_insensitive,
        }),
        other => Err(format!("unknown variant `{other}`")),
    }
}

fn extra(m: &serde_json::Map<String, Value>, known: &[&str]) -> Vec<ExtraField> {
    m.iter()
        .filter(|(k, _)| !known.contains(&k.as_str()))
        .map(|(k, v)| ExtraField {
            name: k.clone(),
            value: match v {
                Value::Bool(b) => ExtraValue::Bool(*b),
                Value::String(s) => ExtraValue::Text(s.clone()),
                other => ExtraValue::Other(other.to_string()),
            },
        })
        .collect()
}

fn options(m: &serde_json::Map<String, Value>) -> Result<OpOptions, String> {
    let line_range = match m.get("line_range") {
        Some(Value::Object(o)) => Some(LineRange {
            start: number(o, "start")?.ok_or("missing field `start`")?,
            end: number(o, "end")?,
        }),
        _ => None,
    };
    let range = match m.get("range") {
        Some(Value::Object(o)) => Some(PatternRange {
            start_pattern: text(o, "start_pattern")?,
            end_pattern: text(o, "end_pattern")?,
        }),
        _ => None,
    };
    Ok(OpOptions {
        dry_run: flag(m, "dry_run", true)?,
        root: opt_text(m, "root")?,
        gitignore: flag(m, "gitignore", true)?,
        backup: flag(m, "backup", false)?,
        atomic: flag(m, "atomic", false)?,
        glob: opt_text(m, "glob")?,
        ignore: opt_text(m, "ignore")?,
        hidden: flag(m, "hidden", false)?,
        max_depth: number(m, "max_depth")?,
        line_range,
        range,
        record_undo: true,
    })
}

/// Reads a request from JSON text.
fn read(input: &str) -> Result<JsonRequest, String> {
    let value: Value = serde_json::from_str(input).map_err(|e| e.to_string())?;
    let Value::Object(m) = value else {
        return Err("a request is an object".to_string());
    };
    let mut operations = Vec::new();
    if let Some(Value::Array(list)) = m.get("operations") {
        for item in list {
            let Value::Object(o) = item else {
                return Err("an operation is an object".to_string());
            };
            operations.push(JsonOp {
                op: operation(o)?,
                glob: opt_text(o, "glob")?,
                extra: extra(o, &[]),
            });
        }
    }
    let undo = match m.get("undo") {
        Some(Value::Object(o)) => {
            Some(UndoRequest { last: number(o, "last")?.ok_or("missing field `last`")? })
        }
        _ => None,
    };
    let empty = serde_json::Map::new();
    let given = match m.get("options") {
        Some(Value::Object(o)) => o,
        _ => &empty,
    };
    Ok(JsonRequest {
        version: match m.get("version") {
            Some(_) => text(&m, "version")?,
            None => "1".to_string(),
        },
        operations,
        options: options(given)?,
        undo,
        extra: extra(&m, &["version", "operations", "options", "undo"]),
    })
}

fn parse(input: &str) -> Result<JsonRequest, RipsedError> {
    JsonRequest::parse(read(input))
}

// ── Basic parsing ──

#[test]
fn test_parse_simple_replace() {
    let input = r#"{
        "operations": [{"op": "replace", "find": "foo", "replace": "bar"}]
    }"#;
    let req = parse(input).unwrap();
    assert_eq!(req.operations.len(), 1);
    assert!(req.options.dry_run); // default
}

#[test]
fn test_parse_invalid_json() {
    let result = parse("not json");
    assert!(result.is_err());
}

#[test]
fn test_parse_empty_operations() {
    let input = r#"{"operations": []}"#;
    let result = parse(input);
    assert!(result.is_err());
}

#[test]
fn test_parse_unknown_version() {
    let input =
        r#"{"version": "99", "operations": [{"op": "replace", "find": "a", "replace": "b"}]}"#;
    let result = parse(input);
    assert!(result.is_err());
}

// ── Every operation type ──

#[test]
fn test_parse_delete() {
    let input = r#"{
        "operations": [{"op": "delete", "find": "TODO", "regex": false}]
    }"#;
    let req = parse(input).unwrap();
    assert_eq!(req.operations.len(), 1);
    match &req.operations[0].op {
        Op::Delete { find, regex, .. } => {
            assert_eq!(find, "TODO");
            assert!(!regex);
        }
        _ => panic!("Expected Delete operation"),
    }
}

#[test]
fn test_parse_delete_with_regex() {
    let input = r#"{
        "operations": [{"op": "delete", "find": "^\\s*//\\s*TODO:.*$", "regex": true}]
    }"#;
    let req = parse(input).unwrap();
    match &req.operations[0].op {
        Op::Delete { find, regex, .. } => {
            assert_eq!(find, r"^\s*//\s*TODO:.*$");
            assert!(regex);
        }
        _ => panic!("Expected Delete operation"),
    }
}

#[test]
fn test_parse_insert_after() {
    let input = r#"{
        "operations": [{
            "op": "insert_after",
            "find": "use serde::Deserialize;",
            "content": "use serde::Serialize;",
            "glob": "src/models/*.rs"
        }]
    }"#;
    let req = parse(input).unwrap();
    assert_eq!(req.operations.len(), 1);
    match &req.operations[0].op {
        Op::InsertAfter { find, content, .. } => {
            assert_eq!(find, "use serde::Deserialize;");
            assert_eq!(content, "use serde::Serialize;");
        }
        _ => panic!("Expected InsertAfter operation"),
    }
    assert_eq!(req.operations[0].glob.as_deref(), Some("src/models/*.rs"));
}

#[test]
fn test_parse_insert_before() {
    let input = r#"{
        "operations": [{
            "op": "insert_before",
            "find": "fn main()",
            "content": "// Entry point"
        }]
    }"#;
    let req = parse(input).unwrap();
    match &req.operations[0].op {
        Op::InsertBefore { find, content, .. } => {
            assert_eq!(find, "fn main()");
            assert_eq!(content, "// Entry point");
        }
        _ => panic!("Expected InsertBefore operation"),
    }
}

#[test]
fn test_parse_replace_line() {
    let input = r#"{
        "operations": [{
            "op": "replace_line",
            "find": "old_version = 1",
            "content": "new_version = 2"
        }]
    }"#;
    let req = parse(input).unwrap();
    match &req.operations[0].op {
        Op::ReplaceLine { find, content, .. } => {
            assert_eq!(find, "old_version = 1");
            assert_eq!(content, "new_version = 2");
        }
        _ => panic!("Expected ReplaceLine operation"),
    }
}

// ── Validation: empty find ──

#[test]
fn test_reject_empty_find_replace() {
    let input = r#"{"operations": [{"op": "replace", "find": "", "replace": "bar"}]}"#;
    let err = parse(input).unwrap_err();
    assert!(err.message.contains("'find' must not be empty"));
}

#[test]
fn test_reject_empty_find_delete() {
    let input = r#"{"operations": [{"op": "delete", "find": ""}]}"#;
    let err = parse(input).unwrap_err();
    assert!(err.message.contains("'find' must not be empty"));
}

#[test]
fn test_reject_empty_find_insert_after() {
    let input = r#"{"operations": [{"op": "insert_after", "find": "", "content": "x"}]}"#;
    let err = parse(input).unwrap_err();
    assert!(err.message.contains("'find' must not be empty"));
}

#[test]
fn test_reject_empty_find_insert_before() {
    let input = r#"{"operations": [{"op": "insert_before", "find": "", "content": "x"}]}"#;
    let err = parse(input).unwrap_err();
    assert!(err.message.contains("'find' must not be empty"));
}

#[test]
fn test_reject_empty_find_replace_line() {
    let input = r#"{"operations": [{"op": "replace_line", "find": "", "content": "x"}]}"#;
    let err = parse(input).unwrap_err();
    assert!(err.message.contains("'find' must not be empty"));
}

// ── Validation: empty content ──

#[test]
fn test_reject_empty_content_insert_after() {
    let input = r#"{"operations": [{"op": "insert_after", "find": "x", "content": ""}]}"#;
    let err = parse(input).unwrap_err();
    assert!(err.message.contains("'content' must not be empty"));
}

#[test]
fn test_reject_empty_content_insert_before() {
    let input = r#"{"operations": [{"op": "insert_before", "find": "x", "content": ""}]}"#;
    let err = parse(input).unwrap_err();
    assert!(err.message.contains("'content' must not be empty"));
}

#[test]
fn test_reject_empty_content_replace_line() {
    let input = r#"{"operations": [{"op": "replace_line", "find": "x", "content": ""}]}"#;
    let err = parse(input).unwrap_err();
    assert!(err.message.contains("'content' must not be empty"));
}

// ── Replace with empty replacement is valid (acts as deletion) ──

#[test]
fn test_allow_empty_replacement_in_replace() {
    let input = r#"{"operations": [{"op": "replace", "find": "remove_me", "replace": ""}]}"#;
    let req = parse(input).unwrap();
    match &req.operations[0].op {
        Op::Replace { find, replace, .. } => {
            assert_eq!(find, "remove_me");
            assert_eq!(replace, "");
        }
        _ => panic!("Expected Replace operation"),
    }
}

// ── Regex validation ──

#[test]
fn test_reject_invalid_regex_in_replace() {
    let input = r#"{"operations": [{"op": "replace", "find": "fn (foo", "replace": "bar", "regex": true}]}"#;
    let err = parse(input).unwrap_err();
    assert_eq!(err.code, ErrorCode::InvalidRegex);
}

#[test]
fn test_reject_invalid_regex_in_delete() {
    let input = r#"{"operations": [{"op": "delete", "find": "[unclosed", "regex": true}]}"#;
    let err = parse(input).unwrap_err();
    assert_eq!(err.code, ErrorCode::InvalidRegex);
}

#[test]
fn test_accept_valid_regex_in_delete() {
    let input = r#"{"operations": [{"op": "delete", "find": "^\\s*//.*$", "regex": true}]}"#;
    let req = parse(input).unwrap();
    assert_eq!(req.operations.len(), 1);
}

// ── Glob validation ──

#[test]
fn test_accept_valid_glob() {
    let input = r#"{
        "operations": [{"op": "replace", "find": "a", "replace": "b", "glob": "**/*.rs"}]
    }"#;
    let req = parse(input).unwrap();
    assert_eq!(req.operations[0].glob.as_deref(), Some("**/*.rs"));
}

#[test]
fn test_reject_empty_glob() {
    let input = r#"{
        "operations": [{"op": "replace", "find": "a", "replace": "b", "glob": ""}]
    }"#;
    let err = parse(input).unwrap_err();
    assert!(err.message.contains("Invalid glob"));
}

#[test]
fn test_reject_unmatched_open_bracket() {
    let input = r#"{
        "operations": [{"op": "replace", "find": "a", "replace": "b", "glob": "[unclosed"}]
    }"#;
    let err = parse(input).unwrap_err();
    assert!(err.message.contains("Unmatched '['"));
}

#[test]
fn test_reject_unmatched_open_brace() {
    let input = r#"{
        "operations": [{"op": "replace", "find": "a", "replace": "b", "glob": "{a,b"}]
    }"#;
    let err = parse(input).unwrap_err();
    assert!(err.message.contains("Unmatched '{'"));
}

#[test]
fn test_reject_unmatched_close_brace() {
    let input = r#"{
        "operations": [{"op": "replace", "find": "a", "replace": "b", "glob": "a,b}"}]
    }"#;
    let err = parse(input).unwrap_err();
    assert!(err.message.contains("Unmatched '}'"));
}

#[test]
fn test_accept_valid_alternation_glob() {
    let input = r#"{
        "operations": [{"op": "replace", "find": "a", "replace": "b", "glob": "*.{rs,toml}"}]
    }"#;
    let req = parse(input).unwrap();
    assert_eq!(req.operations[0].glob.as_deref(), Some("*.{rs,toml}"));
}

#[test]
fn test_reject_empty_options_glob() {
    let input = r#"{
        "operations": [{"op": "replace", "find": "a", "replace": "b"}],
        "options": {"glob": ""}
    }"#;
    let err = parse(input).unwrap_err();
    assert!(err.message.contains("Invalid glob in options"));
}

#[test]
fn test_reject_malformed_options_ignore() {
    let input = r#"{
        "operations": [{"op": "replace", "find": "a", "replace": "b"}],
        "options": {"ignore": "[bad"}
    }"#;
    let err = parse(input).unwrap_err();
    assert!(err.message.contains("Invalid ignore glob"));
}

// ── Per-operation glob extraction ──

#[test]
fn test_per_op_glob_overrides_global() {
    let input = r#"{
        "operations": [
            {"op": "replace", "find": "a", "replace": "b", "glob": "*.rs"},
            {"op": "delete", "find": "c"}
        ],
        "options": {"glob": "*.py"}
    }"#;
    let req = parse(input).unwrap();
    let (ops, _options) = req.into_ops();
    // First op has per-op glob, should override global
    assert_eq!(ops[0].1.as_deref(), Some("*.rs"));
    // Second op has no per-op glob, should inherit global
    assert_eq!(ops[1].1.as_deref(), Some("*.py"));
}

#[test]
fn test_no_glob_yields_none() {
    let input = r#"{
        "operations": [{"op": "replace", "find": "a", "replace": "b"}]
    }"#;
    let req = parse(input).unwrap();
    let (ops, _) = req.into_ops();
    assert_eq!(ops[0].1, None);
}

// ── Undo requests ──

#[test]
fn test_parse_undo_request() {
    let input = r#"{"undo": {"last": 3}}"#;
    let req = parse(input).unwrap();
    assert!(req.operations.is_empty());
    assert_eq!(req.undo.as_ref().unwrap().last, 3);
}

#[test]
fn test_reject_undo_with_operations() {
    let input = r#"{
        "operations": [{"op": "replace", "find": "a", "replace": "b"}],
        "undo": {"last": 1}
    }"#;
    let err = parse(input).unwrap_err();
    assert!(err.message.contains("both 'operations' and 'undo'"));
}

#[test]
fn test_reject_undo_zero() {
    let input = r#"{"undo": {"last": 0}}"#;
    let err = parse(input).unwrap_err();
    assert!(err.message.contains("'last' must be at least 1"));
}

// ── Forward compatibility: extra fields preserved ──

#[test]
fn test_extra_top_level_fields_preserved() {
    let input = r#"{
        "operations": [{"op": "replace", "find": "a", "replace": "b"}],
        "metadata": {"agent": "test-agent", "request_id": "abc123"}
    }"#;
    let req = parse(input).unwrap();
    let field = req.extra.iter().find(|f| f.name == "metadata").unwrap();
    let ExtraValue::Other(json) = &field.value else {
        panic!("expected an object");
    };
    let metadata: Value = serde_json::from_str(json).unwrap();
    assert_eq!(
        metadata.get("agent").and_then(|v| v.as_str()),
        Some("test-agent")
    );
}

#[test]
fn test_unknown_top_level_fields_do_not_cause_error() {
    let input = r#"{
        "operations": [{"op": "replace", "find": "a", "replace": "b"}],
        "future_field": true,
        "another_thing": [1, 2, 3]
    }"#;
    let req = parse(input).unwrap();
    assert_eq!(req.extra.len(), 2);
}

// ── Unknown operation type ──

#[test]
fn test_unknown_op_type_rejected() {
    let input = r#"{
        "operations": [{"op": "explode", "find": "a"}]
    }"#;
    let err = parse(input);
    assert!(err.is_err());
}

#[test]
fn test_parse_transform() {
    let input = r#"{
        "operations": [{"op": "transform", "find": "hello", "mode": "upper"}]
    }"#;
    let req = parse(input).unwrap();
    match &req.operations[0].op {
        Op::Transform { find, mode, .. } => {
            assert_eq!(find, "hello");
            assert_eq!(*mode, TransformMode::Upper);
        }
        _ => panic!("Expected Transform operation"),
    }
}

#[test]
fn test_parse_surround() {
    let input = r#"{
        "operations": [{"op": "surround", "find": "word", "prefix": "(", "suffix": ")"}]
    }"#;
    let req = parse(input).unwrap();
    match &req.operations[0].op {
        Op::Surround {
            find,
            prefix,
            suffix,
            ..
        } => {
            assert_eq!(find, "word");
            assert_eq!(prefix, "(");
            assert_eq!(suffix, ")");
        }
        _ => panic!("Expected Surround operation"),
    }
}

#[test]
fn test_parse_indent() {
    let input = r#"{
        "operations": [{"op": "indent", "find": "fn main", "amount": 2}]
    }"#;
    let req = parse(input).unwrap();
    match &req.operations[0].op {
        Op::Indent { find, amount, .. } => {
            assert_eq!(find, "fn main");
            assert_eq!(*amount, 2);
        }
        _ => panic!("Expected Indent operation"),
    }
}

#[test]
fn test_parse_dedent() {
    let input = r#"{
        "operations": [{"op": "dedent", "find": "nested", "amount": 4}]
    }"#;
    let req = parse(input).unwrap();
    match &req.operations[0].op {
        Op::Dedent { find, amount, .. } => {
            assert_eq!(find, "nested");
            assert_eq!(*amount, 4);
        }
        _ => panic!("Expected Dedent operation"),
    }
}

// ── Unicode patterns ──

#[test]
fn test_unicode_find_replace() {
    let input = r#"{
        "operations": [{"op": "replace", "find": "\u00e9l\u00e8ve", "replace": "\u00e9tudiant"}]
    }"#;
    let req = parse(input).unwrap();
    match &req.operations[0].op {
        Op::Replace { find, replace, .. } => {
            assert_eq!(find, "\u{00e9}l\u{00e8}ve");
            assert_eq!(replace, "\u{00e9}tudiant");
        }
        _ => panic!("Expected Replace"),
    }
}

#[test]
fn test_cjk_find_pattern() {
    let input = r#"{
        "operations": [{"op": "replace", "find": "\u4f60\u597d", "replace": "\u5168\u7403"}]
    }"#;
    let req = parse(input).unwrap();
    match &req.operations[0].op {
        Op::Replace { find, .. } => {
            assert_eq!(find, "\u{4f60}\u{597d}");
        }
        _ => panic!("Expected Replace"),
    }
}

#[test]
fn test_emoji_in_content() {
    let input = r#"{
        "operations": [{
            "op": "insert_after",
            "find": "// header",
            "content": "// \u2764\ufe0f love this code"
        }]
    }"#;
    let req = parse(input).unwrap();
    match &req.operations[0].op {
        Op::InsertAfter { content, .. } => {
            assert!(content.contains('\u{2764}'));
        }
        _ => panic!("Expected InsertAfter"),
    }
}

// ── Options parsing ──

#[test]
fn test_parse_options() {
    let input = r#"{
        "operations": [{"op": "replace", "find": "a", "replace": "b"}],
        "options": {
            "dry_run": false,
            "root": "./my-project",
            "gitignore": true,
            "backup": true,
            "atomic": true,
            "glob": "**/*.rs",
            "hidden": true,
            "max_depth": 5
        }
    }"#;
    let req = parse(input).unwrap();
    assert!(!req.options.dry_run);
    assert_eq!(req.options.root.as_deref(), Some("./my-project"));
    assert!(req.options.gitignore);
    assert!(req.options.backup);
    assert!(req.options.atomic);
    assert_eq!(req.options.glob.as_deref(), Some("**/*.rs"));
    assert!(req.options.hidden);
    assert_eq!(req.options.max_depth, Some(5));
}

#[test]
fn test_default_options() {
    let input = r#"{"operations": [{"op": "replace", "find": "a", "replace": "b"}]}"#;
    let req = parse(input).unwrap();
    assert!(req.options.dry_run);
    assert!(req.options.gitignore);
    assert!(!req.options.backup);
    assert!(!req.options.atomic);
    assert!(!req.options.hidden);
    assert!(req.options.glob.is_none());
    assert!(req.options.root.is_none());
}

// ── Multiline flag ──

#[test]
fn test_multiline_flag_on_replace_and_delete() {
    let input = r#"{
        "operations": [
            {"op": "replace", "find": "a\nb", "replace": "ab", "multiline": true},
            {"op": "delete", "find": "x\ny", "multiline": true}
        ]
    }"#;
    let req = parse(input).unwrap();
    assert!(req.operations[0].op.is_multiline());
    assert!(req.operations[1].op.is_multiline());
}

#[test]
fn test_multiline_false_on_line_scoped_op_is_tolerated() {
    let input = r#"{
        "operations": [{"op": "insert_after", "find": "a", "content": "b", "multiline": false}]
    }"#;
    assert!(parse(input).is_ok());
}

#[test]
fn test_multiline_defaults_to_false_when_omitted() {
    let input = r#"{
        "operations": [{"op": "replace", "find": "a", "replace": "b"}]
    }"#;
    let req = parse(input).unwrap();
    assert!(!req.operations[0].op.is_multiline());
}

#[test]
fn test_multiline_rejected_on_line_scoped_ops() {
    for op_json in [
        r#"{"op": "insert_after", "find": "a", "content": "b", "multiline": true}"#,
        r#"{"op": "transform", "find": "a", "mode": "upper", "multiline": true}"#,
        r#"{"op": "indent", "find": "a", "amount": 2, "multiline": true}"#,
    ] {
        let input = format!(r#"{{"operations": [{op_json}]}}"#);
        let err = parse(&input).unwrap_err();
        assert_eq!(
            err.code,
            ErrorCode::InvalidRequest,
            "expected rejection for {op_json}"
        );
        assert_eq!(err.operation_index, Some(0));
        assert!(err.message.contains("multiline"));
    }
}

// ── Replacement count ──

#[test]
fn test_count_accepted_on_replace() {
    let input = r#"{
        "operations": [
            {"op": "replace", "find": "a", "replace": "b", "count": "first_per_line"},
            {"op": "replace", "find": "a", "replace": "b", "count": {"max": 2}}
        ]
    }"#;
    assert!(parse(input).is_ok());
}

#[test]
fn test_count_max_zero_rejected() {
    let input = r#"{
        "operations": [{"op": "replace", "find": "a", "replace": "b", "count": {"max": 0}}]
    }"#;
    let err = parse(input).unwrap_err();
    assert_eq!(err.code, ErrorCode::InvalidRequest);
    assert!(err.message.contains("max"));
}

#[test]
fn test_count_rejected_on_non_replace_ops() {
    let input = r#"{
        "operations": [{"op": "delete", "find": "a", "count": "first_per_line"}]
    }"#;
    let err = parse(input).unwrap_err();
    assert_eq!(err.code, ErrorCode::InvalidRequest);
    assert_eq!(err.operation_index, Some(0));
    assert!(err.message.contains("count"));
}

#[test]
fn test_count_all_tolerated_on_non_replace_ops() {
    let input = r#"{
        "operations": [{"op": "delete", "find": "a", "count": "all"}]
    }"#;
    assert!(parse(input).is_ok());
}

#[test]
fn test_count_first_per_line_with_multiline_rejected() {
    let input = r#"{
        "operations": [{"op": "replace", "find": "a", "replace": "b", "multiline": true, "count": "first_per_line"}]
    }"#;
    let err = parse(input).unwrap_err();
    assert_eq!(err.code, ErrorCode::InvalidRequest);
    assert!(err.message.contains("first_per_line"));
}

// ── Case insensitive flag ──

#[test]
fn test_case_insensitive_flag() {
    let input = r#"{
        "operations": [{"op": "replace", "find": "hello", "replace": "world", "case_insensitive": true}]
    }"#;
    let req = parse(input).unwrap();
    match &req.operations[0].op {
        Op::Replace {
            case_insensitive, ..
        } => {
            assert!(case_insensitive);
        }
        _ => panic!("Expected Replace"),
    }
}

// ── Batch operations ──

#[test]
fn test_multiple_operations() {
    let input = r#"{
        "operations": [
            {"op": "replace", "find": "old_fn", "replace": "new_fn", "glob": "src/**/*.rs"},
            {"op": "delete", "find": "^\\s*//\\s*TODO:.*$", "regex": true, "glob": "**/*.rs"},
            {"op": "insert_after", "find": "use serde::Deserialize;", "content": "use serde::Serialize;", "glob": "src/models/*.rs"}
        ],
        "options": {"dry_run": true}
    }"#;
    let req = parse(input).unwrap();
    assert_eq!(req.operations.len(), 3);
}

// ── Nested validation errors ──

#[test]
fn test_first_bad_op_reports_index() {
    let input = r#"{
        "operations": [
            {"op": "replace", "find": "good", "replace": "fine"},
            {"op": "replace", "find": "", "replace": "bad"}
        ]
    }"#;
    let err = parse(input).unwrap_err();
    assert!(err.message.contains("Operation 1"));
}

#[test]
fn test_bad_regex_reports_index() {
    let input = r#"{
        "operations": [
            {"op": "replace", "find": "ok", "replace": "fine"},
            {"op": "delete", "find": "[bad", "regex": true}
        ]
    }"#;
    let err = parse(input).unwrap_err();
    assert_eq!(err.code, ErrorCode::InvalidRegex);
    assert_eq!(err.operation_index, Some(1));
}

// ── Whole requests ──

#[test]
fn request_that_renames_a_struct() {
    let input = r#"{
        "operations": [
            {
                "op": "replace",
                "find": "UserConfig",
                "replace": "AppConfig",
                "glob": "**/*.rs"
            }
        ],
        "options": { "dry_run": true, "root": "/home/dev/my-project" }
    }"#;
    let req = parse(input).unwrap();
    assert_eq!(req.operations.len(), 1);
    assert!(req.options.dry_run);
    assert_eq!(req.options.root.as_deref(), Some("/home/dev/my-project"));
    let (ops, _) = req.into_ops();
    assert_eq!(ops[0].1.as_deref(), Some("**/*.rs"));
}

#[test]
fn request_with_every_part() {
    let input = r#"{
        "version": "1",
        "operations": [
            {
                "op": "replace",
                "find": "old_function_name",
                "replace": "new_function_name",
                "regex": false,
                "glob": "src/**/*.rs",
                "case_insensitive": false
            },
            {
                "op": "delete",
                "find": "^\\s*//\\s*TODO:.*$",
                "regex": true,
                "glob": "**/*.rs"
            },
            {
                "op": "insert_after",
                "find": "use serde::Deserialize;",
                "content": "use serde::Serialize;",
                "glob": "src/models/*.rs"
            }
        ],
        "options": {
            "dry_run": true,
            "root": "./my-project",
            "gitignore": true,
            "backup": false,
            "atomic": true
        }
    }"#;
    let req = parse(input).unwrap();
    assert_eq!(req.version, "1");
    assert_eq!(req.operations.len(), 3);
    assert!(req.options.dry_run);
    assert!(req.options.atomic);
    assert!(!req.options.backup);
}

#[test]
fn request_that_undoes_one_record() {
    let input = r#"{"undo": {"last": 1}}"#;
    let req = parse(input).unwrap();
    assert_eq!(req.undo.unwrap().last, 1);
}

#[test]
fn test_json_request_parse_undo() {
    let input = r#"{"undo": {"last": 2}}"#;
    let request = parse(input).unwrap();
    assert!(request.undo.is_some());
    assert_eq!(request.undo.unwrap().last, 2);
}

#[test]
fn test_json_request_parse_atomic_option() {
    let input = r#"{
        "operations": [{"op": "replace", "find": "a", "replace": "b"}],
        "options": {"atomic": true}
    }"#;
    let request = parse(input).unwrap();
    assert!(request.options.atomic);
}

// ── What is refused, and why ──

fn refused(input: &str) -> RipsedError {
    parse(input).unwrap_err()
}

#[test]
fn json_rejects_both_line_range_and_pattern_range() {
    let e = refused(
        r#"{
        "version": "1",
        "operations": [{"op": "replace", "find": "x", "replace": "y"}],
        "options": {
            "line_range": {"start": 1, "end": 2},
            "range": {"start_pattern": "a", "end_pattern": "b"}
        }
    }"#,
    );
    assert_eq!(e.code, ErrorCode::InvalidRequest);
}

#[test]
fn either_range_alone_is_accepted() {
    let lines = r#"{
        "operations": [{"op": "replace", "find": "x", "replace": "y"}],
        "options": {"line_range": {"start": 1, "end": 2}}
    }"#;
    assert!(parse(lines).unwrap().options.line_range.is_some());
    let patterns = r#"{
        "operations": [{"op": "replace", "find": "x", "replace": "y"}],
        "options": {"range": {"start_pattern": "a", "end_pattern": "b"}}
    }"#;
    assert!(parse(patterns).unwrap().options.range.is_some());
}

#[test]
fn json_invalid_regex_error_response() {
    let e = refused(
        r#"{
            "version": "1",
            "operations": [{"op": "replace", "find": "fn (unclosed", "replace": "x", "regex": true}],
            "options": {"dry_run": true, "root": "."}
        }"#,
    );
    assert_eq!(e.code, ErrorCode::InvalidRegex);
    assert!(!e.hint.is_empty());
    assert!(!e.message.is_empty());
}

#[test]
fn json_unknown_version_error() {
    let e = refused(
        r#"{
        "version": "99",
        "operations": [{"op": "replace", "find": "a", "replace": "b"}]
    }"#,
    );
    assert_eq!(e.code, ErrorCode::InvalidRequest);
    assert!(e.message.contains("99") || e.message.contains("version"));
}

#[test]
fn json_malformed_request_error() {
    assert_eq!(refused("{ this is not valid json }").code, ErrorCode::InvalidRequest);
}

#[test]
fn json_empty_operations_error() {
    assert!(parse(r#"{"version": "1", "operations": []}"#).is_err());
}

#[test]
fn explicit_json_with_empty_stdin_returns_invalid_request() {
    assert_eq!(refused("").code, ErrorCode::InvalidRequest);
}

#[test]
fn multiline_json_op_rejected_for_insert() {
    let e = refused(
        r#"{
            "version": "1",
            "operations": [
                {"op": "insert_after", "find": "a", "content": "b", "multiline": true}
            ],
            "options": {"dry_run": true}
        }"#,
    );
    assert_eq!(e.code, ErrorCode::InvalidRequest);
    assert!(e.message.contains("multiline"));
}

#[test]
fn invalid_regex_error_has_hint_and_pattern_in_context() {
    let e = refused(
        r#"{
            "version": "1",
            "operations": [{
                "op": "replace",
                "find": "fn (unclosed",
                "replace": "x",
                "regex": true
            }],
            "options": {"dry_run": true, "root": "."}
        }"#,
    );
    assert_eq!(e.code, ErrorCode::InvalidRegex);
    assert!(!e.hint.is_empty());
    assert!(e.hint.contains("fn (unclosed"));
    assert_eq!(e.pattern.as_deref(), Some("fn (unclosed"));
}

#[test]
fn invalid_request_error_has_hint() {
    let e = refused(r#"{"version": "1", "operations": []}"#);
    assert_eq!(e.code, ErrorCode::InvalidRequest);
    assert!(!e.hint.is_empty());
    assert!(!e.message.is_empty());
}

#[test]
fn malformed_json_error_has_hint() {
    let e = refused("not json at all {{{");
    assert_eq!(e.code, ErrorCode::InvalidRequest);
    assert!(!e.hint.is_empty());
    assert!(e.hint.contains("JSON") || e.hint.contains("json") || e.hint.contains("schema"));
}

#[test]
fn unknown_version_error_has_hint_with_supported_versions() {
    let e = refused(
        r#"{"version": "42", "operations": [{"op": "replace", "find": "a", "replace": "b"}]}"#,
    );
    assert!(!e.hint.is_empty());
    assert!(e.hint.contains("1"));
}

#[test]
fn invalid_regex_error_includes_operation_index() {
    let e = refused(
        r#"{
            "version": "1",
            "operations": [
                {"op": "replace", "find": "content", "replace": "ok"},
                {"op": "replace", "find": "[invalid", "replace": "x", "regex": true}
            ],
            "options": {"dry_run": true, "root": "."}
        }"#,
    );
    assert_eq!(e.code, ErrorCode::InvalidRegex);
    assert_eq!(e.operation_index, Some(1));
}

#[test]
fn all_error_codes_produce_nonempty_hints() {
    assert!(!refused(r#"{"version": "1", "operations": []}"#).hint.is_empty());
    let bad = r#"{
                "version": "1",
                "operations": [{"op": "replace", "find": "(bad", "replace": "x", "regex": true}],
                "options": {"dry_run": true, "root": "."}
            }"#;
    assert!(!refused(bad).hint.is_empty());
    assert!(!refused("{ broken }").hint.is_empty());
    let version =
        r#"{"version": "999", "operations": [{"op": "replace", "find": "a", "replace": "b"}]}"#;
    assert!(!refused(version).hint.is_empty());
}

#[test]
fn transform_upper_via_json() {
    let request = r#"{
        "version": "1",
        "operations": [{"op": "transform", "find": "text", "mode": "upper"}],
        "options": {"dry_run": true}
    }"#;
    assert!(parse(request).is_ok());
}

#[test]
fn surround_via_json() {
    let request = r#"{
        "version": "1",
        "operations": [{"op": "surround", "find": "line", "prefix": ">>> ", "suffix": " <<<"}],
        "options": {"dry_run": true}
    }"#;
    assert!(parse(request).is_ok());
}
