//! Arguments, settings, and what they ask for.
use ripsed::cli::{
    build_op_from_cli, build_op_options, build_pipe_op, cli_range, display_context_lines,
    parse_max_replacements, parse_transform_mode, Cli, PipeError,
};
use ripsed::config::{parse_config, set_setting, Config};
use ripsed::modes::{choose_mode, detect_stdin, Mode, StdinKind};
use ripsed::operation::{LineRange, Op, PatternRange, RangeSpec, ReplaceCount, TransformMode};

fn base() -> Cli {
    Cli { regex: true, case_insensitive: true, ..Default::default() }
}

#[test]
fn the_first_flag_decides_on_the_operation() {
    let mut cli = Cli {
        delete: true,
        after: Some("a".to_string()),
        before: Some("b".to_string()),
        replace_line: Some("l".to_string()),
        transform: Some(TransformMode::Upper),
        surround: Some(vec!["<".to_string(), ">".to_string()]),
        indent: Some(2),
        dedent: Some(3),
        replace: Some("r".to_string()),
        ..base()
    };
    assert!(matches!(build_op_from_cli(&cli, "f"), Op::Delete { multiline: false, .. }));
    cli.delete = false;
    assert_eq!(
        build_op_from_cli(&cli, "f"),
        Op::InsertAfter {
            find: "f".to_string(),
            content: "a".to_string(),
            regex: true,
            case_insensitive: true,
        }
    );
    cli.after = None;
    assert!(matches!(build_op_from_cli(&cli, "f"), Op::InsertBefore { .. }));
    cli.before = None;
    assert!(matches!(build_op_from_cli(&cli, "f"), Op::ReplaceLine { .. }));
    cli.replace_line = None;
    assert!(matches!(
        build_op_from_cli(&cli, "f"),
        Op::Transform { mode: TransformMode::Upper, .. }
    ));
    cli.transform = None;
    assert_eq!(
        build_op_from_cli(&cli, "f"),
        Op::Surround {
            find: "f".to_string(),
            prefix: "<".to_string(),
            suffix: ">".to_string(),
            regex: true,
            case_insensitive: true,
        }
    );
    cli.surround = None;
    assert!(matches!(build_op_from_cli(&cli, "f"), Op::Indent { amount: 2, use_tabs: false, .. }));
    cli.indent = None;
    assert!(matches!(build_op_from_cli(&cli, "f"), Op::Dedent { amount: 3, use_tabs: false, .. }));
    cli.dedent = None;
    assert_eq!(
        build_op_from_cli(&cli, "f"),
        Op::Replace {
            find: "f".to_string(),
            replace: "r".to_string(),
            regex: true,
            case_insensitive: true,
            multiline: false,
            count: ReplaceCount::All,
        }
    );
    cli.replace = None;
    assert!(matches!(build_op_from_cli(&cli, "f"), Op::Replace { ref replace, .. } if replace.is_empty()));
}

#[test]
fn counts_have_an_order_too() {
    let count = |cli: &Cli| match build_op_from_cli(cli, "f") {
        Op::Replace { count, .. } => count,
        other => panic!("expected a replace, got {other:?}"),
    };
    let mut cli =
        Cli { first: true, first_in_file: true, max_replacements: Some(3), ..Default::default() };
    assert_eq!(count(&cli), ReplaceCount::FirstPerLine);
    cli.first = false;
    assert_eq!(count(&cli), ReplaceCount::FirstInFile);
    cli.first_in_file = false;
    assert_eq!(count(&cli), ReplaceCount::Max(3));
}

#[test]
fn arguments_override_settings() {
    let mut config = Config::default();
    config.defaults.backup = true;
    config.defaults.max_depth = Some(1);
    let cli = Cli {
        no_gitignore: true,
        max_depth: Some(7),
        ignore_pattern: Some("*.log".to_string()),
        no_undo: true,
        ..Default::default()
    };
    let o = build_op_options(&cli, &config, Some("*.rs".to_string()));
    assert!(!o.gitignore && o.backup && !o.dry_run && !o.atomic && !o.record_undo);
    assert_eq!(o.max_depth, Some(7));
    assert_eq!(o.glob.as_deref(), Some("*.rs"));
    assert_eq!(o.ignore.as_deref(), Some("*.log"));
    assert_eq!(o.root, None);
    let o = build_op_options(&Cli::default(), &config, None);
    assert!(o.gitignore && o.record_undo);
    assert_eq!(o.max_depth, Some(1));
}

#[test]
fn a_pattern_range_comes_before_a_line_range() {
    let lines = LineRange { start: 2, end: None };
    let patterns =
        PatternRange { start_pattern: "a".to_string(), end_pattern: "b".to_string() };
    let cli = Cli { line_range: Some(lines), range: Some(patterns.clone()), ..Default::default() };
    assert_eq!(cli_range(&cli), Some(RangeSpec::Patterns(patterns)));
    let cli = Cli { line_range: Some(lines), ..Default::default() };
    assert_eq!(cli_range(&cli), Some(RangeSpec::Lines(lines)));
    assert_eq!(cli_range(&Cli::default()), None);
}

#[test]
fn a_pipe_needs_a_pattern_that_compiles() {
    assert!(matches!(build_pipe_op(&Cli::default()), Err(PipeError::MissingPattern)));
    let cli = Cli { find: Some("(".to_string()), regex: true, ..Default::default() };
    assert!(matches!(build_pipe_op(&cli), Err(PipeError::BadPattern(_))));
    let cli = Cli { find: Some("(".to_string()), ..Default::default() };
    assert!(build_pipe_op(&cli).is_ok());
}

#[test]
fn context_is_for_diffs_that_are_shown() {
    assert_eq!(display_context_lines(&Cli::default()), 3);
    assert_eq!(display_context_lines(&Cli { quiet: true, ..Default::default() }), 0);
    assert_eq!(display_context_lines(&Cli { count: true, ..Default::default() }), 0);
}

#[test]
fn limits_on_replacements_are_positive() {
    assert_eq!(parse_max_replacements("3"), Ok(3));
    assert_eq!(
        parse_max_replacements("0"),
        Err("max replacements must be at least 1".to_string())
    );
    assert_eq!(parse_max_replacements("x"), Err("'x' is not a valid number".to_string()));
}

#[test]
fn transformations_go_by_name() {
    assert_eq!(parse_transform_mode("snake_case"), Ok(TransformMode::SnakeCase));
    assert_eq!(parse_transform_mode("title"), Ok(TransformMode::Title));
    assert!(parse_transform_mode("shout").is_err());
}

#[test]
fn settings_are_read_by_section() {
    let c = parse_config("# settings\n[defaults]\nbackup = true\nmax_depth=2 # shallow\n\n[undo]\nmax_entries = 7\n").unwrap();
    assert!(c.defaults.backup && c.defaults.gitignore);
    assert_eq!(c.defaults.max_depth, Some(2));
    assert_eq!(c.undo.max_entries, 7);
    assert_eq!(c.undo.max_file_bytes, 64 * 1024 * 1024);
    let c = parse_config("[defaults]\ngitignore = false\nstream_min_bytes = 10\n[undo]\nmax_file_bytes = 0\n").unwrap();
    assert!(!c.defaults.gitignore);
    assert_eq!(c.defaults.stream_min_bytes, 10);
    assert_eq!(c.undo.max_file_bytes, 0);
    assert_eq!(parse_config(""), Ok(Config::default()));
    assert_eq!(parse_config("[other]\nbackup = maybe\n"), Ok(Config::default()));
}

#[test]
fn settings_that_cannot_be_read_are_named() {
    assert_eq!(
        parse_config("[defaults]\nbackup = maybe\n"),
        Err("invalid setting on line 2: 'backup = maybe'".to_string())
    );
    assert_eq!(
        parse_config("backup\n"),
        Err("invalid setting on line 1: 'backup'".to_string())
    );
    assert_eq!(set_setting(Config::default(), "undo", "max_entries", "-1"), None);
}

#[test]
fn numbers_in_settings_are_plain_decimals() {
    let set = |value: &str| {
        set_setting(Config::default(), "undo", "max_file_bytes", value).map(|c| c.undo.max_file_bytes)
    };
    assert_eq!(set("18446744073709551615"), Some(u64::MAX));
    assert_eq!(set("18446744073709551616"), None);
    assert_eq!(set("99999999999999999999999"), None);
    assert_eq!(set("67_108_864"), Some(67108864));
    assert_eq!(set("+5"), Some(5));
    assert_eq!(set("0"), Some(0));
    for bad in ["", "+", "_1", "1_", "1__2", "007", "-1", "1.5", "0x10", "\"1\""] {
        assert_eq!(set(bad), None, "{bad}");
    }
    let stream = set_setting(Config::default(), "defaults", "stream_min_bytes", "4294967296");
    assert_eq!(stream.unwrap().defaults.stream_min_bytes, 4294967296);
    let depth = set_setting(Config::default(), "defaults", "max_depth", "1_0").unwrap();
    assert_eq!(depth.defaults.max_depth, Some(10));
}

#[test]
fn section_names_are_trimmed() {
    let c = parse_config("[ defaults ]\nbackup = true\n  [\tundo ]  # log\nmax_entries = 1_000\n").unwrap();
    assert!(c.defaults.backup);
    assert_eq!(c.undo.max_entries, 1000);
}

fn mode(cli: Cli, tty: bool) -> Mode {
    choose_mode(&cli, tty)
}

#[test]
fn modes_have_an_order() {
    let all = Cli {
        script: Some("s.rip".to_string()),
        undo_list: true,
        undo: Some(2),
        pipe: true,
        json: true,
        ..Default::default()
    };
    assert_eq!(mode(all.clone(), true), Mode::Script("s.rip".to_string()));
    let rest = Cli { script: None, ..all };
    assert_eq!(mode(rest.clone(), true), Mode::UndoList);
    let rest = Cli { undo_list: false, ..rest };
    assert_eq!(mode(rest.clone(), true), Mode::Undo(2));
    let rest = Cli { undo: None, ..rest };
    assert_eq!(mode(rest.clone(), true), Mode::Pipe);
    let rest = Cli { pipe: false, ..rest };
    assert_eq!(mode(rest.clone(), true), Mode::JsonMissing);
    assert_eq!(mode(rest.clone(), false), Mode::JsonStdin);
    let given = Cli { json_input: Some("{}".to_string()), ..rest };
    assert_eq!(mode(given.clone(), true), Mode::JsonArgument("{}".to_string()));
    assert_eq!(mode(given, false), Mode::JsonStdin);
    assert_eq!(mode(Cli::default(), true), Mode::Files);
    assert_eq!(mode(Cli::default(), false), Mode::Detect);
    let no_json = Cli { no_json: true, ..Default::default() };
    assert_eq!(mode(no_json.clone(), false), Mode::Pipe);
    assert_eq!(mode(no_json, true), Mode::Files);
}

#[test]
fn standard_input_is_told_by_its_start() {
    assert_eq!(detect_stdin(b"", false), StdinKind::Empty);
    assert_eq!(detect_stdin(b"", true), StdinKind::Empty);
    assert_eq!(detect_stdin(b" \t\r\n\x0c{\"a\": 1}", false), StdinKind::Buffered);
    assert_eq!(detect_stdin(b"text {", false), StdinKind::Streamed);
    assert_eq!(detect_stdin(b"text", true), StdinKind::Buffered);
    assert_eq!(detect_stdin(b"   ", false), StdinKind::Streamed);
}
