//! Applying operations to texts.
use ripsed::engine::{apply, uses_crlf, LineProcessor};
use ripsed::error::ErrorCode;
use ripsed::matcher::Matcher;
use ripsed::operation::{LineRange, Op, PatternRange, RangeSpec, ReplaceCount, TransformMode};

#[test]
fn test_simple_replace() {
    let text = "hello world\nfoo bar\nhello again\n";
    let op = Op::Replace {
        count: Default::default(),
        multiline: false,
        find: "hello".to_string(),
        replace: "hi".to_string(),
        regex: false,
        case_insensitive: false,
    };
    let matcher = Matcher::new(&op).unwrap();
    let result = apply(text, &op, &matcher, None, 2).unwrap();
    assert_eq!(result.text.unwrap(), "hi world\nfoo bar\nhi again\n");
    assert_eq!(result.changes.len(), 2);
}

#[test]
fn test_delete_lines() {
    let text = "keep\ndelete me\nkeep too\n";
    let op = Op::Delete {
        multiline: false,
        find: "delete".to_string(),
        regex: false,
        case_insensitive: false,
    };
    let matcher = Matcher::new(&op).unwrap();
    let result = apply(text, &op, &matcher, None, 0).unwrap();
    assert_eq!(result.text.unwrap(), "keep\nkeep too\n");
}

#[test]
fn test_no_changes() {
    let text = "nothing matches here\n";
    let op = Op::Replace {
        count: Default::default(),
        multiline: false,
        find: "zzz".to_string(),
        replace: "aaa".to_string(),
        regex: false,
        case_insensitive: false,
    };
    let matcher = Matcher::new(&op).unwrap();
    let result = apply(text, &op, &matcher, None, 0).unwrap();
    assert!(result.text.is_none());
    assert!(result.changes.is_empty());
}

#[test]
fn test_line_range() {
    let text = "line1\nline2\nline3\nline4\n";
    let op = Op::Replace {
        count: Default::default(),
        multiline: false,
        find: "line".to_string(),
        replace: "row".to_string(),
        regex: false,
        case_insensitive: false,
    };
    let range = Some(LineRange {
        start: 2,
        end: Some(3),
    });
    let matcher = Matcher::new(&op).unwrap();
    let result = apply(text, &op, &matcher, range.map(RangeSpec::Lines), 0).unwrap();
    assert_eq!(result.text.unwrap(), "line1\nrow2\nrow3\nline4\n");
}

// ---------------------------------------------------------------
// CRLF handling tests
// ---------------------------------------------------------------

#[test]
fn test_crlf_replace_preserves_crlf() {
    let text = "hello world\r\nfoo bar\r\nhello again\r\n";
    let op = Op::Replace {
        count: Default::default(),
        multiline: false,
        find: "hello".to_string(),
        replace: "hi".to_string(),
        regex: false,
        case_insensitive: false,
    };
    let matcher = Matcher::new(&op).unwrap();
    let result = apply(text, &op, &matcher, None, 0).unwrap();
    assert_eq!(result.text.unwrap(), "hi world\r\nfoo bar\r\nhi again\r\n");
}

#[test]
fn test_crlf_delete_preserves_crlf() {
    let text = "keep\r\ndelete me\r\nkeep too\r\n";
    let op = Op::Delete {
        multiline: false,
        find: "delete".to_string(),
        regex: false,
        case_insensitive: false,
    };
    let matcher = Matcher::new(&op).unwrap();
    let result = apply(text, &op, &matcher, None, 0).unwrap();
    assert_eq!(result.text.unwrap(), "keep\r\nkeep too\r\n");
}

#[test]
fn test_crlf_no_trailing_newline() {
    let text = "hello world\r\nfoo bar";
    let op = Op::Replace {
        count: Default::default(),
        multiline: false,
        find: "hello".to_string(),
        replace: "hi".to_string(),
        regex: false,
        case_insensitive: false,
    };
    let matcher = Matcher::new(&op).unwrap();
    let result = apply(text, &op, &matcher, None, 0).unwrap();
    let output = result.text.unwrap();
    assert_eq!(output, "hi world\r\nfoo bar");
    // No trailing CRLF since original didn't have one
    assert!(!output.ends_with("\r\n"));
}

#[test]
fn test_crlf_insert_after_metadata_uses_crlf() {
    let text = "alpha\r\nbeta\r\n";
    let op = Op::InsertAfter {
        find: "alpha".to_string(),
        content: "inserted".to_string(),
        regex: false,
        case_insensitive: false,
    };
    let matcher = Matcher::new(&op).unwrap();
    let result = apply(text, &op, &matcher, None, 0).unwrap();

    let output = result.text.unwrap();
    assert_eq!(output, "alpha\r\ninserted\r\nbeta\r\n");

    // The Change.after metadata must show the same bytes the file gets:
    // CRLF between the matched line and the inserted content, not LF.
    let after = result.changes[0].after.as_deref().unwrap();
    assert_eq!(after, "alpha\r\ninserted");
    assert!(
        output.contains(after),
        "metadata {after:?} must appear verbatim in output {output:?}"
    );
}

#[test]
fn test_crlf_insert_before_metadata_uses_crlf() {
    let text = "alpha\r\nbeta\r\n";
    let op = Op::InsertBefore {
        find: "beta".to_string(),
        content: "inserted".to_string(),
        regex: false,
        case_insensitive: false,
    };
    let matcher = Matcher::new(&op).unwrap();
    let result = apply(text, &op, &matcher, None, 0).unwrap();

    let output = result.text.unwrap();
    assert_eq!(output, "alpha\r\ninserted\r\nbeta\r\n");

    let after = result.changes[0].after.as_deref().unwrap();
    assert_eq!(after, "inserted\r\nbeta");
    assert!(
        output.contains(after),
        "metadata {after:?} must appear verbatim in output {output:?}"
    );
}

#[test]
fn test_lf_insert_after_metadata_uses_lf() {
    // Guard the default: LF files keep LF in the metadata.
    let text = "alpha\nbeta\n";
    let op = Op::InsertAfter {
        find: "alpha".to_string(),
        content: "inserted".to_string(),
        regex: false,
        case_insensitive: false,
    };
    let matcher = Matcher::new(&op).unwrap();
    let result = apply(text, &op, &matcher, None, 0).unwrap();
    let after = result.changes[0].after.as_deref().unwrap();
    assert_eq!(after, "alpha\ninserted");
}

// ── Multiline (whole-buffer) mode ──

fn multiline_replace_op(find: &str, replace: &str, regex: bool) -> Op {
    Op::Replace {
        count: Default::default(),
        find: find.to_string(),
        replace: replace.to_string(),
        regex,
        case_insensitive: false,
        multiline: true,
    }
}

fn multiline_delete_op(find: &str, regex: bool) -> Op {
    Op::Delete {
        find: find.to_string(),
        regex,
        case_insensitive: false,
        multiline: true,
    }
}

#[test]
fn test_multiline_literal_replace_across_lines() {
    let text = "fn old(\n    x: u32,\n) {}\n";
    let op = multiline_replace_op("old(\n    x: u32,\n)", "new(x: u32)", false);
    let matcher = Matcher::new(&op).unwrap();
    let result = apply(text, &op, &matcher, None, 0).unwrap();
    assert_eq!(result.text.unwrap(), "fn new(x: u32) {}\n");
    assert_eq!(result.changes.len(), 1);
    assert_eq!(result.changes[0].line, 1);
    assert_eq!(result.changes[0].before, "old(\n    x: u32,\n)");
    assert_eq!(result.changes[0].after.as_deref(), Some("new(x: u32)"));
}

#[test]
fn test_multiline_regex_captures_across_lines() {
    let text = "alpha\nbeta\ngamma\n";
    // Swap the first two lines using a cross-line capture.
    let op = multiline_replace_op(r"(\w+)\n(\w+)\n", "$2\n$1\n", true);
    let matcher = Matcher::new(&op).unwrap();
    let result = apply(text, &op, &matcher, None, 0).unwrap();
    assert_eq!(result.text.unwrap(), "beta\nalpha\ngamma\n");
    assert_eq!(result.changes[0].after.as_deref(), Some("beta\nalpha\n"));
}

#[test]
fn test_multiline_delete_removes_span_not_lines() {
    let text = "keep [START]\ndoomed\n[END] keep\n";
    let op = multiline_delete_op("[START]\ndoomed\n[END]", false);
    let matcher = Matcher::new(&op).unwrap();
    let result = apply(text, &op, &matcher, None, 0).unwrap();
    // Only the span is removed; surrounding text on the boundary lines stays.
    assert_eq!(result.text.unwrap(), "keep  keep\n");
    assert_eq!(result.changes[0].after, None);
    assert_eq!(result.changes[0].before, "[START]\ndoomed\n[END]");
}

#[test]
fn test_multiline_crlf_metadata_matches_output_bytes() {
    let text = "alpha\r\nbeta\r\ngamma\r\n";
    let op = multiline_replace_op("alpha\r\nbeta", "one\r\ntwo", false);
    let matcher = Matcher::new(&op).unwrap();
    let result = apply(text, &op, &matcher, None, 0).unwrap();
    let output = result.text.unwrap();
    assert_eq!(output, "one\r\ntwo\r\ngamma\r\n");
    let change = &result.changes[0];
    assert_eq!(change.before, "alpha\r\nbeta");
    let after = change.after.as_deref().unwrap();
    assert_eq!(after, "one\r\ntwo");
    assert!(
        output.contains(after),
        "metadata {after:?} must appear verbatim in output {output:?}"
    );
}

#[test]
fn test_multiline_match_at_eof_without_trailing_newline() {
    let text = "head\ntail";
    let op = multiline_replace_op("head\ntail", "joined", false);
    let matcher = Matcher::new(&op).unwrap();
    let result = apply(text, &op, &matcher, None, 0).unwrap();
    let output = result.text.unwrap();
    assert_eq!(output, "joined");
    assert!(!output.ends_with('\n'));
}

#[test]
fn test_multiline_preserves_untouched_separators() {
    // Mixed line endings outside the match must pass through untouched —
    // buffer mode never rejoins lines, so no majority-vote normalization.
    let text = "a\r\nMARK\nb\n";
    let op = multiline_replace_op("MARK", "X", false);
    let matcher = Matcher::new(&op).unwrap();
    let result = apply(text, &op, &matcher, None, 0).unwrap();
    assert_eq!(result.text.unwrap(), "a\r\nX\nb\n");
}

#[test]
fn test_multiline_with_line_range_is_rejected() {
    let op = multiline_replace_op("a", "b", false);
    let matcher = Matcher::new(&op).unwrap();
    let range = LineRange {
        start: 1,
        end: Some(2),
    };
    let err = apply("a\n", &op, &matcher, Some(RangeSpec::Lines(range)), 0).unwrap_err();
    assert_eq!(err.code, ErrorCode::InvalidRequest);
}

#[test]
fn test_multiline_change_line_numbers_ascending_and_correct() {
    let text = "x\nfoo\nx\nfoo\nx\nfoo\n";
    let op = multiline_replace_op("foo\nx", "bar\nx", false);
    let matcher = Matcher::new(&op).unwrap();
    let result = apply(text, &op, &matcher, None, 0).unwrap();
    // Non-overlapping left-to-right: matches start on lines 2 and 4.
    let line_numbers: Vec<usize> = result.changes.iter().map(|c| c.line).collect();
    assert_eq!(line_numbers, vec![2, 4]);
    assert_eq!(result.text.unwrap(), "x\nbar\nx\nbar\nx\nfoo\n");
}

#[test]
fn test_multiline_no_match_returns_none() {
    let op = multiline_replace_op("absent\npattern", "x", false);
    let matcher = Matcher::new(&op).unwrap();
    let result = apply("some\ntext\n", &op, &matcher, None, 0).unwrap();
    assert!(result.text.is_none());
    assert!(result.changes.is_empty());
    assert!(result.undo.is_none());
}

#[test]
fn test_multiline_delete_everything_yields_empty_string() {
    let text = "all\ngone\n";
    let op = multiline_delete_op("all\ngone\n", false);
    let matcher = Matcher::new(&op).unwrap();
    let result = apply(text, &op, &matcher, None, 0).unwrap();
    assert_eq!(result.text.unwrap(), "");
}

#[test]
fn test_multiline_undo_roundtrip() {
    let text = "one\ntwo\nthree\n";
    let op = multiline_replace_op("one\ntwo", "1\n2", false);
    let matcher = Matcher::new(&op).unwrap();
    let result = apply(text, &op, &matcher, None, 0).unwrap();
    assert_eq!(result.text.unwrap(), "1\n2\nthree\n");
    assert_eq!(result.undo.unwrap().original_text, text);
}

#[test]
fn test_multiline_output_equals_matcher_replace() {
    // Buffer-mode splicing must reproduce Matcher::replace on the whole
    // text exactly — they share semantics by contract.
    let text = "aaa\nbbb aaa\nccc\n";
    let op = multiline_replace_op("aa", "Z", false);
    let matcher = Matcher::new(&op).unwrap();
    let result = apply(text, &op, &matcher, None, 0).unwrap();
    assert_eq!(
        result.text.unwrap(),
        matcher.replace(text, "Z").unwrap(),
        "span splicing must match replace_all output"
    );
}

#[test]
fn test_multiline_span_context() {
    let text = "ctx1\nctx2\nA\nB\nctx3\nctx4\n";
    let op = multiline_replace_op("A\nB", "AB", false);
    let matcher = Matcher::new(&op).unwrap();
    let result = apply(text, &op, &matcher, None, 1).unwrap();
    let ctx = result.changes[0].context.as_ref().unwrap();
    assert_eq!(ctx.before, vec!["ctx2".to_string()]);
    assert_eq!(ctx.after, vec!["ctx3".to_string()]);
}

// ── Replacement count control ──

fn counted_replace_op(find: &str, replace: &str, count: ReplaceCount) -> Op {
    Op::Replace {
        find: find.to_string(),
        replace: replace.to_string(),
        regex: false,
        case_insensitive: false,
        multiline: false,
        count,
    }
}

#[test]
fn test_count_first_per_line_replaces_one_per_line() {
    let text = "a a a\nx\na a\n";
    let op = counted_replace_op("a", "B", ReplaceCount::FirstPerLine);
    let matcher = Matcher::new(&op).unwrap();
    let result = apply(text, &op, &matcher, None, 0).unwrap();
    assert_eq!(result.text.unwrap(), "B a a\nx\nB a\n");
    assert_eq!(result.changes.len(), 2);
}

#[test]
fn test_count_first_in_file_replaces_only_first_occurrence() {
    let text = "a a\na\na\n";
    let op = counted_replace_op("a", "B", ReplaceCount::FirstInFile);
    let matcher = Matcher::new(&op).unwrap();
    let result = apply(text, &op, &matcher, None, 0).unwrap();
    assert_eq!(result.text.unwrap(), "B a\na\na\n");
    assert_eq!(result.changes.len(), 1);
    assert_eq!(result.changes[0].line, 1);
}

#[test]
fn test_count_max_spans_lines_and_counts_occurrences() {
    // Budget of 3 occurrences: line 1 consumes 2, line 2 consumes the
    // last 1 (partial line), line 3 is untouched.
    let text = "a a\na a\na\n";
    let op = counted_replace_op("a", "B", ReplaceCount::Max(3));
    let matcher = Matcher::new(&op).unwrap();
    let result = apply(text, &op, &matcher, None, 0).unwrap();
    assert_eq!(result.text.unwrap(), "B B\nB a\na\n");
    assert_eq!(result.changes.len(), 2);
}

#[test]
fn test_count_all_is_default_behavior() {
    let text = "a a\na\n";
    let op = counted_replace_op("a", "B", ReplaceCount::All);
    let matcher = Matcher::new(&op).unwrap();
    let result = apply(text, &op, &matcher, None, 0).unwrap();
    assert_eq!(result.text.unwrap(), "B B\nB\n");
}

#[test]
fn test_count_first_per_line_with_regex_captures() {
    let text = "x1 x2 x3\n";
    let op = Op::Replace {
        find: r"x(\d)".to_string(),
        replace: "y$1".to_string(),
        regex: true,
        case_insensitive: false,
        multiline: false,
        count: ReplaceCount::FirstPerLine,
    };
    let matcher = Matcher::new(&op).unwrap();
    let result = apply(text, &op, &matcher, None, 0).unwrap();
    assert_eq!(result.text.unwrap(), "y1 x2 x3\n");
}

#[test]
fn test_count_max_in_multiline_mode_truncates_spans() {
    let text = "a\na\na\n";
    let op = Op::Replace {
        find: "a\n".to_string(),
        replace: "B\n".to_string(),
        regex: false,
        case_insensitive: false,
        multiline: true,
        count: ReplaceCount::Max(2),
    };
    let matcher = Matcher::new(&op).unwrap();
    let result = apply(text, &op, &matcher, None, 0).unwrap();
    assert_eq!(result.text.unwrap(), "B\nB\na\n");
    assert_eq!(result.changes.len(), 2);
}

#[test]
fn test_count_first_in_file_in_multiline_mode() {
    let text = "a\na\n";
    let op = Op::Replace {
        find: "a".to_string(),
        replace: "B".to_string(),
        regex: false,
        case_insensitive: false,
        multiline: true,
        count: ReplaceCount::FirstInFile,
    };
    let matcher = Matcher::new(&op).unwrap();
    let result = apply(text, &op, &matcher, None, 0).unwrap();
    assert_eq!(result.text.unwrap(), "B\na\n");
}

#[test]
fn test_count_first_per_line_rejected_in_multiline_mode() {
    let op = Op::Replace {
        find: "a".to_string(),
        replace: "B".to_string(),
        regex: false,
        case_insensitive: false,
        multiline: true,
        count: ReplaceCount::FirstPerLine,
    };
    let matcher = Matcher::new(&op).unwrap();
    let err = apply("a\n", &op, &matcher, None, 0).unwrap_err();
    assert_eq!(err.code, ErrorCode::InvalidRequest);
}

#[test]
fn test_count_budget_exhausted_skips_remaining_lines() {
    // Once the budget hits zero, later matching lines are untouched and
    // produce no Change entries.
    let text = "a\na\na\na\n";
    let op = counted_replace_op("a", "B", ReplaceCount::Max(1));
    let matcher = Matcher::new(&op).unwrap();
    let result = apply(text, &op, &matcher, None, 0).unwrap();
    assert_eq!(result.text.unwrap(), "B\na\na\na\n");
    assert_eq!(result.changes.len(), 1);
}

// ── Pattern-addressed ranges (sed /start/,/end/) ──

fn pattern_range(start: &str, end: &str) -> Option<RangeSpec> {
    Some(RangeSpec::Patterns(PatternRange {
        start_pattern: start.to_string(),
        end_pattern: end.to_string(),
    }))
}

fn simple_replace(find: &str, replace: &str) -> Op {
    Op::Replace {
        find: find.to_string(),
        replace: replace.to_string(),
        regex: false,
        case_insensitive: false,
        multiline: false,
        count: ReplaceCount::All,
    }
}

#[test]
fn test_pattern_range_single_region_boundaries_inclusive() {
    let text = "x\nBEGIN x\nx\nEND x\nx\n";
    let op = simple_replace("x", "y");
    let matcher = Matcher::new(&op).unwrap();
    let result = apply(text, &op, &matcher, pattern_range("BEGIN", "END"), 0).unwrap();
    // Lines 2-4 (inclusive boundaries) are in range; 1 and 5 are not.
    assert_eq!(result.text.unwrap(), "x\nBEGIN y\ny\nEND y\nx\n");
}

#[test]
fn test_pattern_range_multiple_regions() {
    let text = "x\nA\nx\nB\nx\nA\nx\nB\nx\n";
    let op = simple_replace("x", "y");
    let matcher = Matcher::new(&op).unwrap();
    let result = apply(text, &op, &matcher, pattern_range("A", "B"), 0).unwrap();
    // Two A..B regions; the x's between them (lines 3 and 7) are inside,
    // the x's outside (lines 1, 5, 9) are not.
    assert_eq!(result.text.unwrap(), "x\nA\ny\nB\nx\nA\ny\nB\nx\n");
}

#[test]
fn test_pattern_range_unterminated_extends_to_eof() {
    let text = "x\nBEGIN\nx\nx\n";
    let op = simple_replace("x", "y");
    let matcher = Matcher::new(&op).unwrap();
    let result = apply(text, &op, &matcher, pattern_range("BEGIN", "NEVER"), 0).unwrap();
    assert_eq!(result.text.unwrap(), "x\nBEGIN\ny\ny\n");
}

#[test]
fn test_pattern_range_same_start_and_end_spans_to_next_match() {
    // sed semantics: /a/,/a/ opens at the first 'a' and closes at the
    // NEXT 'a' — the end pattern is never tested on the opening line.
    let text = "MARK\nx\nMARK\nx\n";
    let op = simple_replace("x", "y");
    let matcher = Matcher::new(&op).unwrap();
    let result = apply(text, &op, &matcher, pattern_range("MARK", "MARK"), 0).unwrap();
    assert_eq!(result.text.unwrap(), "MARK\ny\nMARK\nx\n");
}

#[test]
fn test_pattern_range_delete_can_remove_boundary_lines() {
    let text = "keep\nSTART\ngone\nSTOP\nkeep\n";
    let op = Op::Delete {
        find: ".*".to_string(),
        regex: true,
        case_insensitive: false,
        multiline: false,
    };
    let matcher = Matcher::new(&op).unwrap();
    let result = apply(text, &op, &matcher, pattern_range("START", "STOP"), 0).unwrap();
    assert_eq!(result.text.unwrap(), "keep\nkeep\n");
}

#[test]
fn test_pattern_range_start_regex_anchors() {
    let text = "prefix BEGIN\nx\nBEGIN\nx\nEND\n";
    let op = simple_replace("x", "y");
    let matcher = Matcher::new(&op).unwrap();
    // Anchored start: only the line that IS exactly BEGIN opens a region.
    let result = apply(text, &op, &matcher, pattern_range("^BEGIN$", "END"), 0).unwrap();
    assert_eq!(result.text.unwrap(), "prefix BEGIN\nx\nBEGIN\ny\nEND\n");
}

#[test]
fn test_pattern_range_invalid_regex_is_rejected() {
    let op = simple_replace("x", "y");
    let matcher = Matcher::new(&op).unwrap();
    let err = apply("x\n", &op, &matcher, pattern_range("(unclosed", "END"), 0).unwrap_err();
    assert_eq!(err.code, ErrorCode::InvalidRegex);
    assert!(err.message.contains("start"));
}

#[test]
fn test_pattern_range_rejected_in_multiline_mode() {
    let op = Op::Replace {
        find: "x".to_string(),
        replace: "y".to_string(),
        regex: false,
        case_insensitive: false,
        multiline: true,
        count: ReplaceCount::All,
    };
    let matcher = Matcher::new(&op).unwrap();
    let err = apply("x\n", &op, &matcher, pattern_range("A", "B"), 0).unwrap_err();
    assert_eq!(err.code, ErrorCode::InvalidRequest);
}

#[test]
fn test_pattern_range_no_region_means_no_changes() {
    let op = simple_replace("x", "y");
    let matcher = Matcher::new(&op).unwrap();
    let result = apply("x\nx\n", &op, &matcher, pattern_range("NEVER", "END"), 0).unwrap();
    assert!(result.text.is_none());
    assert!(result.changes.is_empty());
}

// ── Streaming LineProcessor ──

#[test]
fn test_line_processor_matches_buffered_apply() {
    // The streaming path must produce the same lines as buffered apply
    // for every line-scoped op shape.
    let text = "alpha x\nplain\nx x\n";
    let op = simple_replace("x", "y");
    let matcher = Matcher::new(&op).unwrap();

    let buffered = apply(text, &op, &matcher, None, 0).unwrap().text.unwrap();

    let mut processor = LineProcessor::new(&op, &matcher, None).unwrap();
    let mut streamed = String::new();
    for line in text.lines() {
        for out in processor.process_line(line).lines {
            streamed.push_str(&out);
            streamed.push('\n');
        }
    }
    assert_eq!(streamed, buffered);
}

#[test]
fn test_line_processor_rejects_multiline_ops() {
    let op = Op::Replace {
        find: "a\nb".to_string(),
        replace: "ab".to_string(),
        regex: false,
        case_insensitive: false,
        multiline: true,
        count: ReplaceCount::All,
    };
    let matcher = Matcher::new(&op).unwrap();
    let err = match LineProcessor::new(&op, &matcher, None) {
        Err(e) => e,
        Ok(_) => panic!("multiline op must be rejected by LineProcessor"),
    };
    assert_eq!(err.code, ErrorCode::InvalidRequest);
}

#[test]
fn test_line_processor_budget_spans_calls() {
    let op = counted_replace_op("x", "y", ReplaceCount::Max(2));
    let matcher = Matcher::new(&op).unwrap();
    let mut processor = LineProcessor::new(&op, &matcher, None).unwrap();
    assert!(processor.process_line("x x").changed); // consumes 2
    let third = processor.process_line("x");
    assert!(!third.changed, "budget exhausted across calls");
    assert_eq!(third.lines, vec!["x".to_string()]);
}

#[test]
fn test_line_processor_pattern_range_state_spans_calls() {
    let op = simple_replace("x", "y");
    let matcher = Matcher::new(&op).unwrap();
    let range = pattern_range("BEGIN", "END");
    let mut processor = LineProcessor::new(&op, &matcher, range).unwrap();
    assert_eq!(processor.process_line("x").lines, vec!["x"]); // before region
    processor.process_line("BEGIN");
    assert_eq!(processor.process_line("x").lines, vec!["y"]); // inside
    processor.process_line("END");
    assert_eq!(processor.process_line("x").lines, vec!["x"]); // after
}

#[test]
fn test_line_processor_insert_and_delete_shapes() {
    let op = Op::InsertAfter {
        find: "mark".to_string(),
        content: "inserted".to_string(),
        regex: false,
        case_insensitive: false,
    };
    let matcher = Matcher::new(&op).unwrap();
    let mut processor = LineProcessor::new(&op, &matcher, None).unwrap();
    assert_eq!(
        processor.process_line("mark").lines,
        vec!["mark".to_string(), "inserted".to_string()]
    );

    let op = Op::Delete {
        find: "gone".to_string(),
        regex: false,
        case_insensitive: false,
        multiline: false,
    };
    let matcher = Matcher::new(&op).unwrap();
    let mut processor = LineProcessor::new(&op, &matcher, None).unwrap();
    let out = processor.process_line("gone");
    assert!(out.lines.is_empty());
    assert!(out.changed);
}

// ── Splice fast path ──

/// Force the per-line loop for an otherwise splice-eligible op: a
/// full-file numeric range has identical semantics but is a range,
/// which splice_eligible rejects.
fn line_path_range() -> Option<RangeSpec> {
    Some(RangeSpec::Lines(LineRange {
        start: 1,
        end: None,
    }))
}

#[test]
fn test_splice_matches_line_path_exactly() {
    for (text, find, replace) in [
        ("a x b\nx\nno match\nx x x\n", "x", "YY"),
        ("x at start\nend x", "x", ""),
        ("a\r\nx here\r\nx x\r\n", "x", "longer-replacement"),
        ("only\none\nmatch deep in file x\n", "x", "y"),
        ("x", "x", "swap"),
        ("multi x on x one x line\n", "x", "[]"),
    ] {
        let op = simple_replace(find, replace);
        let matcher = Matcher::new(&op).unwrap();
        let spliced = apply(text, &op, &matcher, None, 2).unwrap();
        let looped = apply(text, &op, &matcher, line_path_range(), 2).unwrap();
        assert_eq!(spliced.text, looped.text, "text for {text:?}");
        assert_eq!(spliced.changes, looped.changes, "changes for {text:?}");
    }
}

#[test]
fn test_splice_case_insensitive_literal() {
    let text = "Foo bar\nFOO\nplain\n";
    let op = Op::Replace {
        find: "foo".to_string(),
        replace: "baz".to_string(),
        regex: false,
        case_insensitive: true,
        multiline: false,
        count: ReplaceCount::All,
    };
    let matcher = Matcher::new(&op).unwrap();
    let spliced = apply(text, &op, &matcher, None, 1).unwrap();
    let looped = apply(text, &op, &matcher, line_path_range(), 1).unwrap();
    assert_eq!(spliced.text, looped.text);
    assert_eq!(spliced.changes, looped.changes);
    assert_eq!(spliced.text.unwrap(), "baz bar\nbaz\nplain\n");
}

#[test]
fn test_splice_count_parity() {
    let text = "x x\nx x\nx\n";
    for count in [ReplaceCount::FirstInFile, ReplaceCount::Max(3)] {
        let op = counted_replace_op("x", "y", count);
        let matcher = Matcher::new(&op).unwrap();
        let spliced = apply(text, &op, &matcher, None, 0).unwrap();
        let looped = apply(text, &op, &matcher, line_path_range(), 0).unwrap();
        assert_eq!(spliced.text, looped.text, "{count:?}");
        assert_eq!(spliced.changes, looped.changes, "{count:?}");
    }
}

#[test]
fn test_splice_mixed_endings_falls_back_and_normalizes() {
    // Mixed-ending files must take the per-line loop, which normalizes
    // to the majority separator — the long-standing documented behavior.
    let text = "x\r\nx\r\nx\n";
    let op = simple_replace("x", "y");
    let matcher = Matcher::new(&op).unwrap();
    let result = apply(text, &op, &matcher, None, 0).unwrap();
    assert_eq!(result.text.unwrap(), "y\r\ny\r\ny\r\n");
}

#[test]
fn test_splice_replacement_with_newline() {
    let text = "a SPLIT b\nplain\n";
    let op = simple_replace("SPLIT", "one\ntwo");
    let matcher = Matcher::new(&op).unwrap();
    let spliced = apply(text, &op, &matcher, None, 0).unwrap();
    let looped = apply(text, &op, &matcher, line_path_range(), 0).unwrap();
    assert_eq!(spliced.text, looped.text);
    assert_eq!(spliced.text.unwrap(), "a one\ntwo b\nplain\n");
}

#[test]
fn test_context_capped_after_threshold_on_both_paths() {
    // 1100 matching lines: the first 1000 changes carry context, the
    // rest don't — on the splice path and the line path alike.
    let text = "x\n".repeat(1100);
    let op = simple_replace("x", "y");
    let matcher = Matcher::new(&op).unwrap();
    for range in [None, line_path_range()] {
        let result = apply(&text, &op, &matcher, range, 1).unwrap();
        assert_eq!(result.changes.len(), 1100);
        assert!(result.changes[0].context.is_some());
        assert!(result.changes[999].context.is_some());
        assert!(result.changes[1000].context.is_none());
        assert!(result.changes[1099].context.is_none());
    }
}

#[test]
fn test_uses_crlf_detection() {
    assert!(uses_crlf("a\r\nb\r\n"));
    assert!(uses_crlf("a\r\n"));
    assert!(!uses_crlf("a\nb\n"));
    assert!(!uses_crlf("no newline at all"));
    assert!(!uses_crlf(""));
}

// ---------------------------------------------------------------
// Edge-case tests
// ---------------------------------------------------------------

#[test]
fn test_empty_input_text() {
    let text = "";
    let op = Op::Replace {
        count: Default::default(),
        multiline: false,
        find: "anything".to_string(),
        replace: "something".to_string(),
        regex: false,
        case_insensitive: false,
    };
    let matcher = Matcher::new(&op).unwrap();
    let result = apply(text, &op, &matcher, None, 0).unwrap();
    assert!(result.text.is_none());
    assert!(result.changes.is_empty());
}

#[test]
fn test_single_line_no_trailing_newline() {
    let text = "hello world";
    let op = Op::Replace {
        count: Default::default(),
        multiline: false,
        find: "hello".to_string(),
        replace: "hi".to_string(),
        regex: false,
        case_insensitive: false,
    };
    let matcher = Matcher::new(&op).unwrap();
    let result = apply(text, &op, &matcher, None, 0).unwrap();
    let output = result.text.unwrap();
    assert_eq!(output, "hi world");
    // Should NOT add a trailing newline that wasn't there
    assert!(!output.ends_with('\n'));
}

#[test]
fn test_whitespace_only_lines() {
    let text = "  \n\t\n   \t  \n";
    let op = Op::Replace {
        count: Default::default(),
        multiline: false,
        find: "\t".to_string(),
        replace: "TAB".to_string(),
        regex: false,
        case_insensitive: false,
    };
    let matcher = Matcher::new(&op).unwrap();
    let result = apply(text, &op, &matcher, None, 0).unwrap();
    let output = result.text.unwrap();
    assert!(output.contains("TAB"));
    assert_eq!(result.changes.len(), 2); // lines 2 and 3 have tabs
}

#[test]
fn test_very_long_line() {
    let long_word = "x".repeat(100_000);
    let text = format!("before\n{long_word}\nafter\n");
    let op = Op::Replace {
        count: Default::default(),
        multiline: false,
        find: "x".to_string(),
        replace: "y".to_string(),
        regex: false,
        case_insensitive: false,
    };
    let matcher = Matcher::new(&op).unwrap();
    let result = apply(&text, &op, &matcher, None, 0).unwrap();
    let output = result.text.unwrap();
    let expected_long = "y".repeat(100_000);
    assert!(output.contains(&expected_long));
}

#[test]
fn test_unicode_emoji() {
    let text = "hello world\n";
    let op = Op::Replace {
        count: Default::default(),
        multiline: false,
        find: "world".to_string(),
        replace: "\u{1F30D}".to_string(), // earth globe emoji
        regex: false,
        case_insensitive: false,
    };
    let matcher = Matcher::new(&op).unwrap();
    let result = apply(text, &op, &matcher, None, 0).unwrap();
    assert_eq!(result.text.unwrap(), "hello \u{1F30D}\n");
}

#[test]
fn test_unicode_cjk() {
    let text = "\u{4F60}\u{597D}\u{4E16}\u{754C}\n"; // "hello world" in Chinese
    let op = Op::Replace {
        count: Default::default(),
        multiline: false,
        find: "\u{4E16}\u{754C}".to_string(),    // "world"
        replace: "\u{5730}\u{7403}".to_string(), // "earth"
        regex: false,
        case_insensitive: false,
    };
    let matcher = Matcher::new(&op).unwrap();
    let result = apply(text, &op, &matcher, None, 0).unwrap();
    assert_eq!(result.text.unwrap(), "\u{4F60}\u{597D}\u{5730}\u{7403}\n");
}

#[test]
fn test_unicode_combining_characters() {
    // e + combining acute accent = e-acute
    let text = "caf\u{0065}\u{0301}\n";
    let op = Op::Replace {
        count: Default::default(),
        multiline: false,
        find: "caf\u{0065}\u{0301}".to_string(),
        replace: "coffee".to_string(),
        regex: false,
        case_insensitive: false,
    };
    let matcher = Matcher::new(&op).unwrap();
    let result = apply(text, &op, &matcher, None, 0).unwrap();
    assert_eq!(result.text.unwrap(), "coffee\n");
}

#[test]
fn test_regex_special_chars_in_literal_mode() {
    // In literal mode, regex metacharacters should be treated as literals
    let text = "price is $10.00 (USD)\n";
    let op = Op::Replace {
        count: Default::default(),
        multiline: false,
        find: "$10.00".to_string(),
        replace: "$20.00".to_string(),
        regex: false,
        case_insensitive: false,
    };
    let matcher = Matcher::new(&op).unwrap();
    let result = apply(text, &op, &matcher, None, 0).unwrap();
    assert_eq!(result.text.unwrap(), "price is $20.00 (USD)\n");
}

#[test]
fn test_overlapping_matches_in_single_line() {
    // "aaa" with pattern "aa" — standard str::replace does non-overlapping left-to-right
    let text = "aaa\n";
    let op = Op::Replace {
        count: Default::default(),
        multiline: false,
        find: "aa".to_string(),
        replace: "b".to_string(),
        regex: false,
        case_insensitive: false,
    };
    let matcher = Matcher::new(&op).unwrap();
    let result = apply(text, &op, &matcher, None, 0).unwrap();
    // Rust's str::replace: "aaa".replace("aa", "b") == "ba"
    assert_eq!(result.text.unwrap(), "ba\n");
}

#[test]
fn test_replace_line_count_preserved() {
    let text = "line1\nline2\nline3\nline4\nline5\n";
    let input_line_count = text.lines().count();
    let op = Op::Replace {
        count: Default::default(),
        multiline: false,
        find: "line".to_string(),
        replace: "row".to_string(),
        regex: false,
        case_insensitive: false,
    };
    let matcher = Matcher::new(&op).unwrap();
    let result = apply(text, &op, &matcher, None, 0).unwrap();
    let output = result.text.unwrap();
    let output_line_count = output.lines().count();
    assert_eq!(input_line_count, output_line_count);
}

#[test]
fn test_replace_preserves_empty_result_on_non_match() {
    // Pattern that exists nowhere in text
    let text = "alpha\nbeta\ngamma\n";
    let op = Op::Replace {
        count: Default::default(),
        multiline: false,
        find: "zzzzzz".to_string(),
        replace: "y".to_string(),
        regex: false,
        case_insensitive: false,
    };
    let matcher = Matcher::new(&op).unwrap();
    let result = apply(text, &op, &matcher, None, 0).unwrap();
    assert!(result.text.is_none());
    assert!(result.undo.is_none());
}

#[test]
fn test_undo_entry_stores_original() {
    let text = "hello\nworld\n";
    let op = Op::Replace {
        count: Default::default(),
        multiline: false,
        find: "hello".to_string(),
        replace: "hi".to_string(),
        regex: false,
        case_insensitive: false,
    };
    let matcher = Matcher::new(&op).unwrap();
    let result = apply(text, &op, &matcher, None, 0).unwrap();
    let undo = result.undo.unwrap();
    assert_eq!(undo.original_text, text);
}

#[test]
fn test_determinism_same_input_same_output() {
    let text = "foo bar baz\nhello world\nfoo again\n";
    let op = Op::Replace {
        count: Default::default(),
        multiline: false,
        find: "foo".to_string(),
        replace: "qux".to_string(),
        regex: false,
        case_insensitive: false,
    };
    let matcher = Matcher::new(&op).unwrap();
    let r1 = apply(text, &op, &matcher, None, 0).unwrap();
    let r2 = apply(text, &op, &matcher, None, 0).unwrap();
    assert_eq!(r1.text, r2.text);
    assert_eq!(r1.changes.len(), r2.changes.len());
    for (c1, c2) in r1.changes.iter().zip(r2.changes.iter()) {
        assert_eq!(c1, c2);
    }
}

// ---------------------------------------------------------------
// Transform operation tests
// ---------------------------------------------------------------

#[test]
fn test_transform_upper() {
    let text = "hello world\nfoo bar\n";
    let op = Op::Transform {
        find: "hello".to_string(),
        mode: TransformMode::Upper,
        regex: false,
        case_insensitive: false,
    };
    let matcher = Matcher::new(&op).unwrap();
    let result = apply(text, &op, &matcher, None, 0).unwrap();
    assert_eq!(result.text.unwrap(), "HELLO world\nfoo bar\n");
    assert_eq!(result.changes.len(), 1);
    assert_eq!(result.changes[0].line, 1);
}

#[test]
fn test_transform_lower() {
    let text = "HELLO WORLD\nFOO BAR\n";
    let op = Op::Transform {
        find: "HELLO".to_string(),
        mode: TransformMode::Lower,
        regex: false,
        case_insensitive: false,
    };
    let matcher = Matcher::new(&op).unwrap();
    let result = apply(text, &op, &matcher, None, 0).unwrap();
    assert_eq!(result.text.unwrap(), "hello WORLD\nFOO BAR\n");
    assert_eq!(result.changes.len(), 1);
}

#[test]
fn test_transform_noop_when_already_target_case() {
    // Transforming already-lowercase text to Lower should produce no changes
    let text = "hello world\nfoo bar\n";
    let op = Op::Transform {
        find: "hello".to_string(),
        mode: TransformMode::Lower,
        regex: false,
        case_insensitive: false,
    };
    let matcher = Matcher::new(&op).unwrap();
    let result = apply(text, &op, &matcher, None, 0).unwrap();
    assert!(result.text.is_none(), "No text modification expected");
    assert!(result.changes.is_empty(), "No changes expected");
}

#[test]
fn test_transform_title() {
    let text = "hello world\nfoo bar\n";
    let op = Op::Transform {
        find: "hello world".to_string(),
        mode: TransformMode::Title,
        regex: false,
        case_insensitive: false,
    };
    let matcher = Matcher::new(&op).unwrap();
    let result = apply(text, &op, &matcher, None, 0).unwrap();
    assert_eq!(result.text.unwrap(), "Hello World\nfoo bar\n");
    assert_eq!(result.changes.len(), 1);
}

#[test]
fn test_transform_snake_case() {
    let text = "let myVariable = 1;\nother line\n";
    let op = Op::Transform {
        find: "myVariable".to_string(),
        mode: TransformMode::SnakeCase,
        regex: false,
        case_insensitive: false,
    };
    let matcher = Matcher::new(&op).unwrap();
    let result = apply(text, &op, &matcher, None, 0).unwrap();
    assert_eq!(result.text.unwrap(), "let my_variable = 1;\nother line\n");
    assert_eq!(result.changes.len(), 1);
}

#[test]
fn test_transform_camel_case() {
    let text = "let my_variable = 1;\nother line\n";
    let op = Op::Transform {
        find: "my_variable".to_string(),
        mode: TransformMode::CamelCase,
        regex: false,
        case_insensitive: false,
    };
    let matcher = Matcher::new(&op).unwrap();
    let result = apply(text, &op, &matcher, None, 0).unwrap();
    assert_eq!(result.text.unwrap(), "let myVariable = 1;\nother line\n");
    assert_eq!(result.changes.len(), 1);
}

#[test]
fn test_transform_upper_multiple_matches_on_line() {
    let text = "hello and hello again\n";
    let op = Op::Transform {
        find: "hello".to_string(),
        mode: TransformMode::Upper,
        regex: false,
        case_insensitive: false,
    };
    let matcher = Matcher::new(&op).unwrap();
    let result = apply(text, &op, &matcher, None, 0).unwrap();
    assert_eq!(result.text.unwrap(), "HELLO and HELLO again\n");
}

#[test]
fn test_transform_no_match() {
    let text = "hello world\n";
    let op = Op::Transform {
        find: "zzz".to_string(),
        mode: TransformMode::Upper,
        regex: false,
        case_insensitive: false,
    };
    let matcher = Matcher::new(&op).unwrap();
    let result = apply(text, &op, &matcher, None, 0).unwrap();
    assert!(result.text.is_none());
    assert!(result.changes.is_empty());
}

#[test]
fn test_transform_empty_text() {
    let text = "";
    let op = Op::Transform {
        find: "anything".to_string(),
        mode: TransformMode::Upper,
        regex: false,
        case_insensitive: false,
    };
    let matcher = Matcher::new(&op).unwrap();
    let result = apply(text, &op, &matcher, None, 0).unwrap();
    assert!(result.text.is_none());
    assert!(result.changes.is_empty());
}

#[test]
fn test_transform_with_regex() {
    let text = "let fooBar = 1;\nlet bazQux = 2;\n";
    let op = Op::Transform {
        find: r"[a-z]+[A-Z]\w*".to_string(),
        mode: TransformMode::SnakeCase,
        regex: true,
        case_insensitive: false,
    };
    let matcher = Matcher::new(&op).unwrap();
    let result = apply(text, &op, &matcher, None, 0).unwrap();
    let output = result.text.unwrap();
    assert!(output.contains("foo_bar"));
    assert!(output.contains("baz_qux"));
    assert_eq!(result.changes.len(), 2);
}

#[test]
fn test_transform_case_insensitive() {
    let text = "Hello HELLO hello\n";
    let op = Op::Transform {
        find: "hello".to_string(),
        mode: TransformMode::Upper,
        regex: false,
        case_insensitive: true,
    };
    let matcher = Matcher::new(&op).unwrap();
    let result = apply(text, &op, &matcher, None, 0).unwrap();
    assert_eq!(result.text.unwrap(), "HELLO HELLO HELLO\n");
}

#[test]
fn test_transform_crlf_preserved() {
    let text = "hello world\r\nfoo bar\r\n";
    let op = Op::Transform {
        find: "hello".to_string(),
        mode: TransformMode::Upper,
        regex: false,
        case_insensitive: false,
    };
    let matcher = Matcher::new(&op).unwrap();
    let result = apply(text, &op, &matcher, None, 0).unwrap();
    assert_eq!(result.text.unwrap(), "HELLO world\r\nfoo bar\r\n");
}

#[test]
fn test_transform_with_line_range() {
    let text = "hello\nhello\nhello\nhello\n";
    let op = Op::Transform {
        find: "hello".to_string(),
        mode: TransformMode::Upper,
        regex: false,
        case_insensitive: false,
    };
    let range = Some(LineRange {
        start: 2,
        end: Some(3),
    });
    let matcher = Matcher::new(&op).unwrap();
    let result = apply(text, &op, &matcher, range.map(RangeSpec::Lines), 0).unwrap();
    assert_eq!(result.text.unwrap(), "hello\nHELLO\nHELLO\nhello\n");
    assert_eq!(result.changes.len(), 2);
}

#[test]
fn test_transform_title_with_underscores() {
    let text = "my_func_name\n";
    let op = Op::Transform {
        find: "my_func_name".to_string(),
        mode: TransformMode::Title,
        regex: false,
        case_insensitive: false,
    };
    let matcher = Matcher::new(&op).unwrap();
    let result = apply(text, &op, &matcher, None, 0).unwrap();
    // Title case capitalizes after underscores
    assert_eq!(result.text.unwrap(), "My_Func_Name\n");
}

#[test]
fn test_transform_snake_case_from_multi_word() {
    let text = "my-kebab-case\n";
    let op = Op::Transform {
        find: "my-kebab-case".to_string(),
        mode: TransformMode::SnakeCase,
        regex: false,
        case_insensitive: false,
    };
    let matcher = Matcher::new(&op).unwrap();
    let result = apply(text, &op, &matcher, None, 0).unwrap();
    assert_eq!(result.text.unwrap(), "my_kebab_case\n");
}

#[test]
fn test_transform_camel_case_from_snake() {
    let text = "my_var_name\n";
    let op = Op::Transform {
        find: "my_var_name".to_string(),
        mode: TransformMode::CamelCase,
        regex: false,
        case_insensitive: false,
    };
    let matcher = Matcher::new(&op).unwrap();
    let result = apply(text, &op, &matcher, None, 0).unwrap();
    assert_eq!(result.text.unwrap(), "myVarName\n");
}

#[test]
fn test_transform_camel_case_from_kebab() {
    let text = "my-var-name\n";
    let op = Op::Transform {
        find: "my-var-name".to_string(),
        mode: TransformMode::CamelCase,
        regex: false,
        case_insensitive: false,
    };
    let matcher = Matcher::new(&op).unwrap();
    let result = apply(text, &op, &matcher, None, 0).unwrap();
    assert_eq!(result.text.unwrap(), "myVarName\n");
}

// ---------------------------------------------------------------
// Surround operation tests
// ---------------------------------------------------------------

#[test]
fn test_surround_basic() {
    let text = "hello world\nfoo bar\n";
    let op = Op::Surround {
        find: "hello".to_string(),
        prefix: "<<".to_string(),
        suffix: ">>".to_string(),
        regex: false,
        case_insensitive: false,
    };
    let matcher = Matcher::new(&op).unwrap();
    let result = apply(text, &op, &matcher, None, 0).unwrap();
    assert_eq!(result.text.unwrap(), "<<hello world>>\nfoo bar\n");
    assert_eq!(result.changes.len(), 1);
    assert_eq!(result.changes[0].line, 1);
}

#[test]
fn test_surround_multiple_lines() {
    let text = "foo line 1\nbar line 2\nfoo line 3\n";
    let op = Op::Surround {
        find: "foo".to_string(),
        prefix: "[".to_string(),
        suffix: "]".to_string(),
        regex: false,
        case_insensitive: false,
    };
    let matcher = Matcher::new(&op).unwrap();
    let result = apply(text, &op, &matcher, None, 0).unwrap();
    assert_eq!(
        result.text.unwrap(),
        "[foo line 1]\nbar line 2\n[foo line 3]\n"
    );
    assert_eq!(result.changes.len(), 2);
}

#[test]
fn test_surround_no_match() {
    let text = "hello world\n";
    let op = Op::Surround {
        find: "zzz".to_string(),
        prefix: "<".to_string(),
        suffix: ">".to_string(),
        regex: false,
        case_insensitive: false,
    };
    let matcher = Matcher::new(&op).unwrap();
    let result = apply(text, &op, &matcher, None, 0).unwrap();
    assert!(result.text.is_none());
    assert!(result.changes.is_empty());
}

#[test]
fn test_surround_empty_text() {
    let text = "";
    let op = Op::Surround {
        find: "anything".to_string(),
        prefix: "<".to_string(),
        suffix: ">".to_string(),
        regex: false,
        case_insensitive: false,
    };
    let matcher = Matcher::new(&op).unwrap();
    let result = apply(text, &op, &matcher, None, 0).unwrap();
    assert!(result.text.is_none());
    assert!(result.changes.is_empty());
}

#[test]
fn test_surround_with_regex() {
    let text = "fn main() {\n    let x = 1;\n}\n";
    let op = Op::Surround {
        find: r"fn\s+\w+".to_string(),
        prefix: "/* ".to_string(),
        suffix: " */".to_string(),
        regex: true,
        case_insensitive: false,
    };
    let matcher = Matcher::new(&op).unwrap();
    let result = apply(text, &op, &matcher, None, 0).unwrap();
    assert_eq!(
        result.text.unwrap(),
        "/* fn main() { */\n    let x = 1;\n}\n"
    );
}

#[test]
fn test_surround_case_insensitive() {
    let text = "Hello world\nhello world\nHELLO world\n";
    let op = Op::Surround {
        find: "hello".to_string(),
        prefix: "(".to_string(),
        suffix: ")".to_string(),
        regex: false,
        case_insensitive: true,
    };
    let matcher = Matcher::new(&op).unwrap();
    let result = apply(text, &op, &matcher, None, 0).unwrap();
    let output = result.text.unwrap();
    assert_eq!(output, "(Hello world)\n(hello world)\n(HELLO world)\n");
    assert_eq!(result.changes.len(), 3);
}

#[test]
fn test_surround_crlf_preserved() {
    let text = "hello world\r\nfoo bar\r\n";
    let op = Op::Surround {
        find: "hello".to_string(),
        prefix: "[".to_string(),
        suffix: "]".to_string(),
        regex: false,
        case_insensitive: false,
    };
    let matcher = Matcher::new(&op).unwrap();
    let result = apply(text, &op, &matcher, None, 0).unwrap();
    assert_eq!(result.text.unwrap(), "[hello world]\r\nfoo bar\r\n");
}

#[test]
fn test_surround_with_line_range() {
    let text = "foo\nfoo\nfoo\nfoo\n";
    let op = Op::Surround {
        find: "foo".to_string(),
        prefix: "<".to_string(),
        suffix: ">".to_string(),
        regex: false,
        case_insensitive: false,
    };
    let range = Some(LineRange {
        start: 2,
        end: Some(3),
    });
    let matcher = Matcher::new(&op).unwrap();
    let result = apply(text, &op, &matcher, range.map(RangeSpec::Lines), 0).unwrap();
    assert_eq!(result.text.unwrap(), "foo\n<foo>\n<foo>\nfoo\n");
    assert_eq!(result.changes.len(), 2);
}

#[test]
fn test_surround_with_empty_prefix_and_suffix() {
    let text = "hello world\n";
    let op = Op::Surround {
        find: "hello".to_string(),
        prefix: String::new(),
        suffix: String::new(),
        regex: false,
        case_insensitive: false,
    };
    let matcher = Matcher::new(&op).unwrap();
    let result = apply(text, &op, &matcher, None, 0).unwrap();
    // Surround with empty prefix and suffix is a no-op — no change recorded.
    assert!(result.text.is_none());
    assert!(result.changes.is_empty());
}

// ---------------------------------------------------------------
// Indent operation tests
// ---------------------------------------------------------------

#[test]
fn test_indent_basic() {
    let text = "hello\nworld\n";
    let op = Op::Indent {
        find: "hello".to_string(),
        amount: 4,
        use_tabs: false,
        regex: false,
        case_insensitive: false,
    };
    let matcher = Matcher::new(&op).unwrap();
    let result = apply(text, &op, &matcher, None, 0).unwrap();
    assert_eq!(result.text.unwrap(), "    hello\nworld\n");
    assert_eq!(result.changes.len(), 1);
}

#[test]
fn test_indent_multiple_lines() {
    let text = "foo line 1\nbar line 2\nfoo line 3\n";
    let op = Op::Indent {
        find: "foo".to_string(),
        amount: 2,
        use_tabs: false,
        regex: false,
        case_insensitive: false,
    };
    let matcher = Matcher::new(&op).unwrap();
    let result = apply(text, &op, &matcher, None, 0).unwrap();
    assert_eq!(
        result.text.unwrap(),
        "  foo line 1\nbar line 2\n  foo line 3\n"
    );
    assert_eq!(result.changes.len(), 2);
}

#[test]
fn test_indent_with_tabs() {
    let text = "hello\nworld\n";
    let op = Op::Indent {
        find: "hello".to_string(),
        amount: 2,
        use_tabs: true,
        regex: false,
        case_insensitive: false,
    };
    let matcher = Matcher::new(&op).unwrap();
    let result = apply(text, &op, &matcher, None, 0).unwrap();
    assert_eq!(result.text.unwrap(), "\t\thello\nworld\n");
}

#[test]
fn test_indent_no_match() {
    let text = "hello world\n";
    let op = Op::Indent {
        find: "zzz".to_string(),
        amount: 4,
        use_tabs: false,
        regex: false,
        case_insensitive: false,
    };
    let matcher = Matcher::new(&op).unwrap();
    let result = apply(text, &op, &matcher, None, 0).unwrap();
    assert!(result.text.is_none());
    assert!(result.changes.is_empty());
}

#[test]
fn test_indent_empty_text() {
    let text = "";
    let op = Op::Indent {
        find: "anything".to_string(),
        amount: 4,
        use_tabs: false,
        regex: false,
        case_insensitive: false,
    };
    let matcher = Matcher::new(&op).unwrap();
    let result = apply(text, &op, &matcher, None, 0).unwrap();
    assert!(result.text.is_none());
    assert!(result.changes.is_empty());
}

#[test]
fn test_indent_zero_amount() {
    let text = "hello\n";
    let op = Op::Indent {
        find: "hello".to_string(),
        amount: 0,
        use_tabs: false,
        regex: false,
        case_insensitive: false,
    };
    let matcher = Matcher::new(&op).unwrap();
    let result = apply(text, &op, &matcher, None, 0).unwrap();
    // Indent by 0 is a no-op — no change recorded.
    assert!(result.text.is_none());
    assert!(result.changes.is_empty());
}

#[test]
fn test_indent_with_regex() {
    let text = "fn main() {\nlet x = 1;\n}\n";
    let op = Op::Indent {
        find: r"let\s+".to_string(),
        amount: 4,
        use_tabs: false,
        regex: true,
        case_insensitive: false,
    };
    let matcher = Matcher::new(&op).unwrap();
    let result = apply(text, &op, &matcher, None, 0).unwrap();
    assert_eq!(result.text.unwrap(), "fn main() {\n    let x = 1;\n}\n");
    assert_eq!(result.changes.len(), 1);
}

#[test]
fn test_indent_case_insensitive() {
    let text = "Hello\nhello\nHELLO\n";
    let op = Op::Indent {
        find: "hello".to_string(),
        amount: 2,
        use_tabs: false,
        regex: false,
        case_insensitive: true,
    };
    let matcher = Matcher::new(&op).unwrap();
    let result = apply(text, &op, &matcher, None, 0).unwrap();
    assert_eq!(result.text.unwrap(), "  Hello\n  hello\n  HELLO\n");
    assert_eq!(result.changes.len(), 3);
}

#[test]
fn test_indent_crlf_preserved() {
    let text = "hello\r\nworld\r\n";
    let op = Op::Indent {
        find: "hello".to_string(),
        amount: 4,
        use_tabs: false,
        regex: false,
        case_insensitive: false,
    };
    let matcher = Matcher::new(&op).unwrap();
    let result = apply(text, &op, &matcher, None, 0).unwrap();
    assert_eq!(result.text.unwrap(), "    hello\r\nworld\r\n");
}

#[test]
fn test_indent_with_line_range() {
    let text = "foo\nfoo\nfoo\nfoo\n";
    let op = Op::Indent {
        find: "foo".to_string(),
        amount: 4,
        use_tabs: false,
        regex: false,
        case_insensitive: false,
    };
    let range = Some(LineRange {
        start: 2,
        end: Some(3),
    });
    let matcher = Matcher::new(&op).unwrap();
    let result = apply(text, &op, &matcher, range.map(RangeSpec::Lines), 0).unwrap();
    assert_eq!(result.text.unwrap(), "foo\n    foo\n    foo\nfoo\n");
    assert_eq!(result.changes.len(), 2);
}

// ---------------------------------------------------------------
// Dedent operation tests
// ---------------------------------------------------------------

#[test]
fn test_dedent_basic() {
    let text = "    hello\nworld\n";
    let op = Op::Dedent {
        find: "hello".to_string(),
        amount: 4,
        use_tabs: false,
        regex: false,
        case_insensitive: false,
    };
    let matcher = Matcher::new(&op).unwrap();
    let result = apply(text, &op, &matcher, None, 0).unwrap();
    assert_eq!(result.text.unwrap(), "hello\nworld\n");
    assert_eq!(result.changes.len(), 1);
}

#[test]
fn test_dedent_partial() {
    // Only 2 spaces of leading whitespace, dedent by 4 should remove only 2
    let text = "  hello\n";
    let op = Op::Dedent {
        find: "hello".to_string(),
        amount: 4,
        use_tabs: false,
        regex: false,
        case_insensitive: false,
    };
    let matcher = Matcher::new(&op).unwrap();
    let result = apply(text, &op, &matcher, None, 0).unwrap();
    assert_eq!(result.text.unwrap(), "hello\n");
}

#[test]
fn test_dedent_no_leading_spaces() {
    // Line matches but has no leading spaces -- nothing to remove
    let text = "hello\n";
    let op = Op::Dedent {
        find: "hello".to_string(),
        amount: 4,
        use_tabs: false,
        regex: false,
        case_insensitive: false,
    };
    let matcher = Matcher::new(&op).unwrap();
    let result = apply(text, &op, &matcher, None, 0).unwrap();
    // No actual change because line has no leading spaces
    assert!(result.text.is_none());
    assert!(result.changes.is_empty());
}

#[test]
fn test_dedent_multiple_lines() {
    let text = "    foo line 1\n    bar line 2\n    foo line 3\n";
    let op = Op::Dedent {
        find: "foo".to_string(),
        amount: 4,
        use_tabs: false,
        regex: false,
        case_insensitive: false,
    };
    let matcher = Matcher::new(&op).unwrap();
    let result = apply(text, &op, &matcher, None, 0).unwrap();
    assert_eq!(
        result.text.unwrap(),
        "foo line 1\n    bar line 2\nfoo line 3\n"
    );
    assert_eq!(result.changes.len(), 2);
}

#[test]
fn test_dedent_no_match() {
    let text = "    hello world\n";
    let op = Op::Dedent {
        find: "zzz".to_string(),
        amount: 4,
        use_tabs: false,
        regex: false,
        case_insensitive: false,
    };
    let matcher = Matcher::new(&op).unwrap();
    let result = apply(text, &op, &matcher, None, 0).unwrap();
    assert!(result.text.is_none());
    assert!(result.changes.is_empty());
}

#[test]
fn test_dedent_empty_text() {
    let text = "";
    let op = Op::Dedent {
        find: "anything".to_string(),
        amount: 4,
        use_tabs: false,
        regex: false,
        case_insensitive: false,
    };
    let matcher = Matcher::new(&op).unwrap();
    let result = apply(text, &op, &matcher, None, 0).unwrap();
    assert!(result.text.is_none());
    assert!(result.changes.is_empty());
}

#[test]
fn test_dedent_with_regex() {
    let text = "    let x = 1;\n    fn main() {\n";
    let op = Op::Dedent {
        find: r"let\s+".to_string(),
        amount: 4,
        use_tabs: false,
        regex: true,
        case_insensitive: false,
    };
    let matcher = Matcher::new(&op).unwrap();
    let result = apply(text, &op, &matcher, None, 0).unwrap();
    assert_eq!(result.text.unwrap(), "let x = 1;\n    fn main() {\n");
    assert_eq!(result.changes.len(), 1);
}

#[test]
fn test_dedent_case_insensitive() {
    let text = "    Hello\n    hello\n    HELLO\n";
    let op = Op::Dedent {
        find: "hello".to_string(),
        amount: 2,
        use_tabs: false,
        regex: false,
        case_insensitive: true,
    };
    let matcher = Matcher::new(&op).unwrap();
    let result = apply(text, &op, &matcher, None, 0).unwrap();
    assert_eq!(result.text.unwrap(), "  Hello\n  hello\n  HELLO\n");
    assert_eq!(result.changes.len(), 3);
}

#[test]
fn test_dedent_crlf_preserved() {
    let text = "    hello\r\nworld\r\n";
    let op = Op::Dedent {
        find: "hello".to_string(),
        amount: 4,
        use_tabs: false,
        regex: false,
        case_insensitive: false,
    };
    let matcher = Matcher::new(&op).unwrap();
    let result = apply(text, &op, &matcher, None, 0).unwrap();
    assert_eq!(result.text.unwrap(), "hello\r\nworld\r\n");
}

#[test]
fn test_dedent_with_line_range() {
    let text = "    foo\n    foo\n    foo\n    foo\n";
    let op = Op::Dedent {
        find: "foo".to_string(),
        amount: 4,
        use_tabs: false,
        regex: false,
        case_insensitive: false,
    };
    let range = Some(LineRange {
        start: 2,
        end: Some(3),
    });
    let matcher = Matcher::new(&op).unwrap();
    let result = apply(text, &op, &matcher, range.map(RangeSpec::Lines), 0).unwrap();
    assert_eq!(result.text.unwrap(), "    foo\nfoo\nfoo\n    foo\n");
    assert_eq!(result.changes.len(), 2);
}

#[test]
fn test_dedent_only_removes_spaces_not_tabs() {
    // Dedent only strips leading spaces, not tabs
    let text = "\t\thello\n";
    let op = Op::Dedent {
        find: "hello".to_string(),
        amount: 4,
        use_tabs: false,
        regex: false,
        case_insensitive: false,
    };
    let matcher = Matcher::new(&op).unwrap();
    let result = apply(text, &op, &matcher, None, 0).unwrap();
    // The dedent_line function only strips spaces (trim_start_matches(' ')),
    // tabs are not removed.
    assert!(result.text.is_none());
}

// ---------------------------------------------------------------
// Indent then Dedent roundtrip
// ---------------------------------------------------------------

#[test]
fn test_indent_then_dedent_roundtrip() {
    let original = "hello world\nfoo bar\n";

    // Step 1: Indent by 4
    let indent_op = Op::Indent {
        find: "hello".to_string(),
        amount: 4,
        use_tabs: false,
        regex: false,
        case_insensitive: false,
    };
    let indent_matcher = Matcher::new(&indent_op).unwrap();
    let indented = apply(original, &indent_op, &indent_matcher, None, 0).unwrap();
    let indented_text = indented.text.unwrap();
    assert_eq!(indented_text, "    hello world\nfoo bar\n");

    // Step 2: Dedent by 4 (the find still matches because "hello" is in the line)
    let dedent_op = Op::Dedent {
        find: "hello".to_string(),
        amount: 4,
        use_tabs: false,
        regex: false,
        case_insensitive: false,
    };
    let dedent_matcher = Matcher::new(&dedent_op).unwrap();
    let dedented = apply(&indented_text, &dedent_op, &dedent_matcher, None, 0).unwrap();
    assert_eq!(dedented.text.unwrap(), original);
}

// ---------------------------------------------------------------
// Undo entry tests for new ops
// ---------------------------------------------------------------

#[test]
fn test_transform_undo_stores_original() {
    let text = "hello world\n";
    let op = Op::Transform {
        find: "hello".to_string(),
        mode: TransformMode::Upper,
        regex: false,
        case_insensitive: false,
    };
    let matcher = Matcher::new(&op).unwrap();
    let result = apply(text, &op, &matcher, None, 0).unwrap();
    assert_eq!(result.undo.unwrap().original_text, text);
}

#[test]
fn test_surround_undo_stores_original() {
    let text = "hello world\n";
    let op = Op::Surround {
        find: "hello".to_string(),
        prefix: "<".to_string(),
        suffix: ">".to_string(),
        regex: false,
        case_insensitive: false,
    };
    let matcher = Matcher::new(&op).unwrap();
    let result = apply(text, &op, &matcher, None, 0).unwrap();
    assert_eq!(result.undo.unwrap().original_text, text);
}

#[test]
fn test_indent_undo_stores_original() {
    let text = "hello world\n";
    let op = Op::Indent {
        find: "hello".to_string(),
        amount: 4,
        use_tabs: false,
        regex: false,
        case_insensitive: false,
    };
    let matcher = Matcher::new(&op).unwrap();
    let result = apply(text, &op, &matcher, None, 0).unwrap();
    assert_eq!(result.undo.unwrap().original_text, text);
}

#[test]
fn test_dedent_undo_stores_original() {
    let text = "    hello world\n";
    let op = Op::Dedent {
        find: "hello".to_string(),
        amount: 4,
        use_tabs: false,
        regex: false,
        case_insensitive: false,
    };
    let matcher = Matcher::new(&op).unwrap();
    let result = apply(text, &op, &matcher, None, 0).unwrap();
    assert_eq!(result.undo.unwrap().original_text, text);
}

// ---------------------------------------------------------------
// Line preservation tests for new ops
// ---------------------------------------------------------------

#[test]
fn test_transform_preserves_line_count() {
    let text = "hello\nworld\nfoo\n";
    let op = Op::Transform {
        find: "hello".to_string(),
        mode: TransformMode::Upper,
        regex: false,
        case_insensitive: false,
    };
    let matcher = Matcher::new(&op).unwrap();
    let result = apply(text, &op, &matcher, None, 0).unwrap();
    let output = result.text.unwrap();
    assert_eq!(text.lines().count(), output.lines().count());
}

#[test]
fn test_surround_preserves_line_count() {
    let text = "hello\nworld\nfoo\n";
    let op = Op::Surround {
        find: "hello".to_string(),
        prefix: "<".to_string(),
        suffix: ">".to_string(),
        regex: false,
        case_insensitive: false,
    };
    let matcher = Matcher::new(&op).unwrap();
    let result = apply(text, &op, &matcher, None, 0).unwrap();
    let output = result.text.unwrap();
    assert_eq!(text.lines().count(), output.lines().count());
}

#[test]
fn test_indent_preserves_line_count() {
    let text = "hello\nworld\nfoo\n";
    let op = Op::Indent {
        find: "hello".to_string(),
        amount: 4,
        use_tabs: false,
        regex: false,
        case_insensitive: false,
    };
    let matcher = Matcher::new(&op).unwrap();
    let result = apply(text, &op, &matcher, None, 0).unwrap();
    let output = result.text.unwrap();
    assert_eq!(text.lines().count(), output.lines().count());
}

#[test]
fn test_dedent_preserves_line_count() {
    let text = "    hello\n    world\n    foo\n";
    let op = Op::Dedent {
        find: "hello".to_string(),
        amount: 4,
        use_tabs: false,
        regex: false,
        case_insensitive: false,
    };
    let matcher = Matcher::new(&op).unwrap();
    let result = apply(text, &op, &matcher, None, 0).unwrap();
    let output = result.text.unwrap();
    assert_eq!(text.lines().count(), output.lines().count());
}

#[test]
fn test_line_numbers_with_mixed_line_endings() {
    // Line 1 = "alpha" (LF)
    // Line 2 = "beta" (CRLF)
    // Line 3 = "gamma match" (LF) — this is where the change should be reported
    // Line 4 = "delta" (CRLF)
    let text = "alpha\nbeta\r\ngamma match\ndelta\r\n";
    let op = Op::Replace {
        count: Default::default(),
        multiline: false,
        find: "match".to_string(),
        replace: "HIT".to_string(),
        regex: false,
        case_insensitive: false,
    };
    let matcher = Matcher::new(&op).unwrap();
    let result = apply(text, &op, &matcher, None, 0).unwrap();
    assert_eq!(result.changes.len(), 1);
    assert_eq!(
        result.changes[0].line, 3,
        "Line number must be 3 regardless of the mixed CR/LF / CRLF endings above it; got {}",
        result.changes[0].line
    );
    assert_eq!(result.changes[0].before, "gamma match");
}

#[test]
fn test_line_number_for_single_line_no_newline() {
    let text = "only line matches here";
    let op = Op::Replace {
        count: Default::default(),
        multiline: false,
        find: "matches".to_string(),
        replace: "OK".to_string(),
        regex: false,
        case_insensitive: false,
    };
    let matcher = Matcher::new(&op).unwrap();
    let result = apply(text, &op, &matcher, None, 0).unwrap();
    assert_eq!(result.changes.len(), 1);
    assert_eq!(result.changes[0].line, 1);
}

#[test]
fn test_first_line_is_one_not_zero() {
    let text = "match first\nother\nother\n";
    let op = Op::Replace {
        count: Default::default(),
        multiline: false,
        find: "match".to_string(),
        replace: "X".to_string(),
        regex: false,
        case_insensitive: false,
    };
    let matcher = Matcher::new(&op).unwrap();
    let result = apply(text, &op, &matcher, None, 0).unwrap();
    assert_eq!(
        result.changes[0].line, 1,
        "First-line change must be reported as line 1, not 0"
    );
}

#[test]
fn test_delete_reports_original_line_number() {
    let text = "keep1\ndelete_me\nkeep2\n";
    let op = Op::Delete {
        multiline: false,
        find: "delete_me".to_string(),
        regex: false,
        case_insensitive: false,
    };
    let matcher = Matcher::new(&op).unwrap();
    let result = apply(text, &op, &matcher, None, 0).unwrap();
    assert_eq!(result.changes.len(), 1);
    assert_eq!(
        result.changes[0].line, 2,
        "Deleted line's reported line must be its original position (2)"
    );
    assert_eq!(result.changes[0].before, "delete_me");
    assert_eq!(result.changes[0].after, None);
}

#[test]
fn test_delete_all_lines_produces_empty_file() {
    let text = "only line\n";
    let op = Op::Delete {
        multiline: false,
        find: "only".to_string(),
        regex: false,
        case_insensitive: false,
    };
    let matcher = Matcher::new(&op).unwrap();
    let result = apply(text, &op, &matcher, None, 0).unwrap();
    let output = result.text.unwrap();
    assert_eq!(
        output, "",
        "Deleting every line must yield an empty file, got {output:?}"
    );
}

/// Same invariant for CRLF input.
#[test]
fn test_delete_all_lines_crlf_produces_empty_file() {
    let text = "only line\r\n";
    let op = Op::Delete {
        multiline: false,
        find: "only".to_string(),
        regex: false,
        case_insensitive: false,
    };
    let matcher = Matcher::new(&op).unwrap();
    let result = apply(text, &op, &matcher, None, 0).unwrap();
    let output = result.text.unwrap();
    assert_eq!(
        output, "",
        "Deleting every CRLF line must yield an empty file"
    );
}

#[test]
fn case_changes_of_ascii_text() {
    let snake = ripsed::transform::transform_text("HelloWorld foo-bar", TransformMode::SnakeCase);
    assert_eq!(snake, "hello_world_foo_bar");
    assert_eq!(ripsed::transform::transform_text(&snake, TransformMode::SnakeCase), snake);
    assert_eq!(ripsed::transform::transform_text("aZ9-", TransformMode::Upper), "AZ9-");
    assert_eq!(ripsed::transform::transform_text("aZ9-", TransformMode::Lower), "az9-");
}

#[test]
fn dedent_undoes_indent_on_the_lines_that_match() {
    for text in ["x\nplain\n\nx y", "x\r\nplain\r\n", "plain\r\n\r\nx\r\n"] {
        let indent = Op::Indent {
            find: "x".to_string(),
            amount: 3,
            use_tabs: true,
            regex: false,
            case_insensitive: false,
        };
        let dedent = Op::Dedent {
            find: "x".to_string(),
            amount: 3,
            use_tabs: true,
            regex: false,
            case_insensitive: false,
        };
        let m = Matcher::new(&indent).unwrap();
        let t = apply(text, &indent, &m, None, 0).unwrap().text.unwrap();
        assert_ne!(t, text);
        let m = Matcher::new(&dedent).unwrap();
        assert_eq!(apply(&t, &dedent, &m, None, 0).unwrap().text.as_deref(), Some(text));
    }
}
