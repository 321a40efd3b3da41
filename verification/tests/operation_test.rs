//! Operations and options.
use ripsed::operation::{LineRange, Op, OpOptions, TransformMode};

// ── Op serde roundtrip ──

#[test]
fn is_multiline_false_for_line_scoped_ops() {
    // Line-scoped ops can't express multiline at the type level.
    let op = Op::InsertAfter {
        find: "a".into(),
        content: "b".into(),
        regex: false,
        case_insensitive: false,
    };
    assert!(!op.is_multiline());
}

// ── LineRange ──

#[test]
fn line_range_contains_bounded() {
    let range = LineRange {
        start: 5,
        end: Some(10),
    };
    assert!(!range.contains(4));
    assert!(range.contains(5));
    assert!(range.contains(7));
    assert!(range.contains(10));
    assert!(!range.contains(11));
}

#[test]
fn line_range_contains_unbounded_end() {
    let range = LineRange {
        start: 3,
        end: None,
    };
    assert!(!range.contains(2));
    assert!(range.contains(3));
    assert!(range.contains(1000));
}

#[test]
fn line_range_single_line() {
    let range = LineRange {
        start: 7,
        end: Some(7),
    };
    assert!(!range.contains(6));
    assert!(range.contains(7));
    assert!(!range.contains(8));
}

// ── OpOptions ──

#[test]
fn op_options_default_values() {
    let opts = OpOptions::default();
    assert!(opts.dry_run);
    assert!(opts.gitignore);
    assert!(!opts.backup);
    assert!(!opts.atomic);
    assert!(!opts.hidden);
    assert!(opts.root.is_none());
    assert!(opts.glob.is_none());
    assert!(opts.ignore.is_none());
    assert!(opts.max_depth.is_none());
    assert!(opts.line_range.is_none());
}

// ── Serde defaults and unknown-variant behavior ──

// ── TransformMode Display and FromStr ──

#[test]
fn transform_mode_display_roundtrip() {
    let modes = [
        TransformMode::Upper,
        TransformMode::Lower,
        TransformMode::Title,
        TransformMode::SnakeCase,
        TransformMode::CamelCase,
    ];
    for mode in modes {
        let s = mode.as_str();
        let parsed: TransformMode = s.parse().unwrap();
        assert_eq!(mode, parsed);
    }
}

#[test]
fn transform_mode_from_str_aliases() {
    assert_eq!(
        "snake".parse::<TransformMode>().unwrap(),
        TransformMode::SnakeCase
    );
    assert_eq!(
        "camel".parse::<TransformMode>().unwrap(),
        TransformMode::CamelCase
    );
}

#[test]
fn transform_mode_from_str_unknown_fails() {
    assert!("unknown".parse::<TransformMode>().is_err());
}
