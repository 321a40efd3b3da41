//! Values of arguments.
use ripsed::cli::{parse_line_range, parse_max_depth, parse_pattern_range};

#[test]
fn parse_pattern_range_valid() {
    let r = parse_pattern_range("/begin/,/end/").unwrap();
    assert_eq!(r.start_pattern, "begin");
    assert_eq!(r.end_pattern, "end");
}

#[test]
fn parse_pattern_range_regex_metachars_pass_through() {
    let r = parse_pattern_range(r"/\[deps\]/,/^$/").unwrap();
    assert_eq!(r.start_pattern, r"\[deps\]");
    assert_eq!(r.end_pattern, "^$");
}

#[test]
fn parse_pattern_range_malformed_rejected() {
    for bad in ["start,end", "/start/", "/a/,/b", "a/,/b/", ""] {
        assert!(
            parse_pattern_range(bad).is_err(),
            "{bad:?} should be rejected"
        );
    }
}

#[test]
fn parse_pattern_range_invalid_regex_rejected() {
    let err = parse_pattern_range("/(unclosed/,/end/").unwrap_err();
    assert!(err.contains("invalid start pattern"));
    let err = parse_pattern_range("/start/,/(unclosed/").unwrap_err();
    assert!(err.contains("invalid end pattern"));
}

// ---- parse_line_range tests ----

#[test]
fn test_parse_line_range_full() {
    let r = parse_line_range("5:10").unwrap();
    assert_eq!(r.start, 5);
    assert_eq!(r.end, Some(10));
}

#[test]
fn test_parse_line_range_open_end() {
    let r = parse_line_range("3:").unwrap();
    assert_eq!(r.start, 3);
    assert_eq!(r.end, None);
}

#[test]
fn test_parse_line_range_single_number() {
    let r = parse_line_range("7").unwrap();
    assert_eq!(r.start, 7);
    assert_eq!(r.end, None);
}

#[test]
fn test_parse_line_range_same_start_end() {
    let r = parse_line_range("4:4").unwrap();
    assert_eq!(r.start, 4);
    assert_eq!(r.end, Some(4));
}

#[test]
fn test_parse_line_range_rejects_zero_start() {
    let err = parse_line_range("0:5").unwrap_err();
    assert!(err.contains("must be >= 1"), "got: {err}");
}

#[test]
fn test_parse_line_range_rejects_zero_end() {
    let err = parse_line_range("1:0").unwrap_err();
    assert!(err.contains("must be >= 1"), "got: {err}");
}

#[test]
fn test_parse_line_range_rejects_start_gt_end() {
    let err = parse_line_range("10:5").unwrap_err();
    assert!(err.contains("must be <= end"), "got: {err}");
}

#[test]
fn test_parse_line_range_rejects_non_numeric() {
    assert!(parse_line_range("abc").is_err());
    assert!(parse_line_range("1:xyz").is_err());
    assert!(parse_line_range("abc:5").is_err());
}

#[test]
fn test_parse_line_range_rejects_zero_single() {
    let err = parse_line_range("0").unwrap_err();
    assert!(err.contains("must be >= 1"), "got: {err}");
}

// ---- parse_max_depth tests ----

#[test]
fn test_parse_max_depth_valid() {
    assert_eq!(parse_max_depth("1").unwrap(), 1);
    assert_eq!(parse_max_depth("5").unwrap(), 5);
    assert_eq!(parse_max_depth("100").unwrap(), 100);
}

#[test]
fn test_parse_max_depth_rejects_zero() {
    let err = parse_max_depth("0").unwrap_err();
    assert!(err.contains("must be >= 1"), "got: {err}");
}

#[test]
fn test_parse_max_depth_rejects_non_numeric() {
    assert!(parse_max_depth("abc").is_err());
    assert!(parse_max_depth("-1").is_err());
}

#[test]
fn a_pattern_range_holds_one_separator() {
    let err = parse_pattern_range("/a/,/b/,/c/").unwrap_err();
    assert_eq!(err, "range must look like /start/,/end/");
    let r = parse_pattern_range("/a/,/,/b/").unwrap();
    assert_eq!(r.start_pattern, "a");
    assert_eq!(r.end_pattern, ",/b");
}

#[test]
fn pattern_range_malformed_syntax_rejected() {
    for bad in ["start,end", "/start/", "/a/,/b", "a/,/b/"] {
        assert!(parse_pattern_range(bad).unwrap_err().contains("/start/,/end/"));
    }
}

#[test]
fn pattern_range_invalid_regex_rejected_at_parse() {
    let err = parse_pattern_range("/(unclosed/,/end/").unwrap_err();
    assert!(err.contains("invalid start pattern"));
}
