//! Pipes.
use ripsed::cli::{build_pipe_op, parse_line_range, parse_pattern_range, Cli};
use ripsed::modes::{choose_mode, detect_stdin, is_request, request_text, Mode, StdinKind};
use ripsed::operation::TransformMode;
use ripsed::pipe::{run_pipe_mode, PipeEvent, PipeStep, PipeStream};

fn cli(find: &str, replace: &str) -> Cli {
    Cli {
        find: Some(find.to_string()),
        replace: Some(replace.to_string()),
        ..Default::default()
    }
}

/// The lines of a text, each with its terminator.
fn raw_lines(input: &str) -> Vec<String> {
    input.split_inclusive('\n').map(|l| l.to_string()).collect()
}

fn stream(c: &Cli, input: &str) -> (String, Result<(), i32>) {
    let setup = match build_pipe_op(c) {
        Ok(p) => p,
        Err(_) => panic!("the arguments make no pipe"),
    };
    let mut pipe = PipeStream::new(&setup.op, &setup.matcher, setup.range, c.count).unwrap_or_else(
        |e| panic!("cannot stream: {}", e.message),
    );
    let mut lines = raw_lines(input).into_iter();
    let mut out = String::new();
    loop {
        let event = match pipe.action() {
            PipeStep::ReadLine => match lines.next() {
                Some(l) => PipeEvent::Line(l),
                None => PipeEvent::EndOfInput,
            },
            PipeStep::Emit(text) => {
                out.push_str(&text);
                PipeEvent::Done
            }
            PipeStep::Flush => PipeEvent::Done,
            PipeStep::Finish => break,
        };
        pipe = pipe.answer(event);
    }
    let (message, exit) = pipe.result().unwrap();
    assert_eq!(message, None);
    (out, exit)
}

#[test]
fn streaming_replace_matches_buffered_output() {
    let (out, res) = stream(&cli("hello", "goodbye"), "hello world\nplain\nhello\n");
    assert_eq!(res, Ok(()));
    assert_eq!(out, "goodbye world\nplain\ngoodbye\n");
}

#[test]
fn streaming_preserves_mixed_terminators_exactly() {
    let (out, _) = stream(&cli("x", "y"), "x\r\nx\nx\r\nplain\n");
    assert_eq!(out, "y\r\ny\ny\r\nplain\n");
}

#[test]
fn streaming_final_line_without_newline_stays_bare() {
    let (out, _) = stream(&cli("x", "y"), "x\nx");
    assert_eq!(out, "y\ny");
}

#[test]
fn streaming_insert_after_uses_line_terminator() {
    let c = Cli {
        find: Some("mark".to_string()),
        after: Some("inserted".to_string()),
        ..Default::default()
    };
    let (out, _) = stream(&c, "mark\r\nmark");
    assert_eq!(out, "mark\r\ninserted\r\nmark\ninserted");
}

#[test]
fn streaming_delete_drops_lines() {
    let c = Cli { find: Some("gone".to_string()), delete: true, ..Default::default() };
    let (out, _) = stream(&c, "keep\ngone\nkeep\n");
    assert_eq!(out, "keep\nkeep\n");
}

#[test]
fn streaming_count_prints_total_and_no_content() {
    let c = Cli { count: true, ..cli("x", "y") };
    let (out, _) = stream(&c, "x\nplain\nx\nx\n");
    assert_eq!(out, "3\n");
}

#[test]
fn streaming_line_range_applies() {
    let c = Cli { line_range: Some(parse_line_range("2:3").unwrap()), ..cli("x", "y") };
    let (out, _) = stream(&c, "x\nx\nx\nx\n");
    assert_eq!(out, "x\ny\ny\nx\n");
}

#[test]
fn streaming_pattern_range_applies() {
    let c = Cli { range: Some(parse_pattern_range("/BEGIN/,/END/").unwrap()), ..cli("x", "y") };
    let (out, _) = stream(&c, "x\nBEGIN\nx\nEND\nx\n");
    assert_eq!(out, "x\nBEGIN\ny\nEND\nx\n");
}

#[test]
fn streaming_first_in_file_budget_spans_lines() {
    let c = Cli { first_in_file: true, ..cli("x", "y") };
    let (out, _) = stream(&c, "x\nx\nx\n");
    assert_eq!(out, "y\nx\nx\n");
}

#[test]
fn streaming_broken_pipe_is_quiet_success() {
    let c = cli("x", "y");
    let setup = build_pipe_op(&c).ok().unwrap();
    let mut pipe = PipeStream::new(&setup.op, &setup.matcher, setup.range, false).ok().unwrap();
    let mut lines = raw_lines("x\nx\n").into_iter();
    loop {
        let event = match pipe.action() {
            PipeStep::ReadLine => match lines.next() {
                Some(l) => PipeEvent::Line(l),
                None => PipeEvent::EndOfInput,
            },
            PipeStep::Emit(_) => PipeEvent::Closed,
            PipeStep::Flush => PipeEvent::Done,
            PipeStep::Finish => break,
        };
        pipe = pipe.answer(event);
    }
    assert_eq!(pipe.result(), Some((None, Ok(()))));
}

#[test]
fn stream_that_cannot_be_read_or_written_is_an_error() {
    let c = cli("x", "y");
    let setup = build_pipe_op(&c).ok().unwrap();
    let pipe = PipeStream::new(&setup.op, &setup.matcher, None, false).ok().unwrap();
    let pipe = pipe.answer(PipeEvent::Failed("gone".to_string()));
    assert_eq!(
        pipe.result(),
        Some((Some("ripsed: failed to read stdin: gone".to_string()), Err(2)))
    );
    let pipe = PipeStream::new(&setup.op, &setup.matcher, None, false).ok().unwrap();
    let pipe = pipe.answer(PipeEvent::Line("x\n".to_string()));
    assert_eq!(pipe.lines_read(), 1);
    let pipe = pipe.answer(PipeEvent::Failed("full".to_string()));
    assert_eq!(
        pipe.result(),
        Some((Some("ripsed: failed to write output: full".to_string()), Err(2)))
    );
}

#[test]
fn stream_without_a_match_says_so() {
    let (out, res) = stream(&cli("zzz", "y"), "a\r\nb\nc");
    assert_eq!(out, "a\r\nb\nc");
    assert_eq!(res, Err(1));
}

#[test]
fn buffered_pipe_writes_the_text() {
    let r = run_pipe_mode(&cli("hello", "goodbye"), b"hello world\n".to_vec());
    assert_eq!(r.stdout, "goodbye world\n");
    assert_eq!(r.stderr, None);
    assert_eq!(r.exit, Ok(()));
}

#[test]
fn buffered_pipe_without_a_match_writes_its_input() {
    let r = run_pipe_mode(&cli("zzz", "y"), b"plain\n".to_vec());
    assert_eq!(r.stdout, "plain\n");
    assert_eq!(r.exit, Err(1));
}

#[test]
fn buffered_pipe_counts() {
    let c = Cli { count: true, ..cli("x", "y") };
    let r = run_pipe_mode(&c, b"x\nplain\nx\n".to_vec());
    assert_eq!(r.stdout, "2\n");
    assert_eq!(r.exit, Ok(()));
}

#[test]
fn buffered_pipe_matches_across_lines() {
    let c = Cli { multiline: true, regex: true, ..cli("a\nb", "ab") };
    let r = run_pipe_mode(&c, b"x\na\nb\n".to_vec());
    assert_eq!(r.stdout, "x\nab\n");
}

#[test]
fn buffered_pipe_refuses_what_it_cannot_read() {
    let r = run_pipe_mode(&cli("x", "y"), vec![0xff, 0xfe, 0xfd]);
    assert!(r.stderr.unwrap().starts_with("ripsed: stdin is not valid UTF-8: invalid utf-8"));
    assert_eq!(r.exit, Err(2));
    assert_eq!(r.stdout, "");
}

#[test]
fn buffered_pipe_needs_a_pattern() {
    let r = run_pipe_mode(&Cli::default(), b"text\n".to_vec());
    assert_eq!(r.stderr.as_deref(), Some("ripsed: missing FIND pattern"));
    assert_eq!(r.exit, Err(2));
}

#[test]
fn buffered_pipe_refuses_a_bad_pattern() {
    let c = Cli { regex: true, ..cli("(", "y") };
    let r = run_pipe_mode(&c, b"text\n".to_vec());
    assert!(r.stderr.unwrap().starts_with("ripsed: Regex pattern failed to compile"));
    assert_eq!(r.exit, Err(2));
}

#[test]
fn whole_buffer_operations_cannot_be_streamed() {
    let c = Cli { multiline: true, ..cli("x", "y") };
    let setup = build_pipe_op(&c).ok().unwrap();
    let e = PipeStream::new(&setup.op, &setup.matcher, setup.range, false).err().unwrap();
    assert_eq!(e.message, "multiline operations cannot be streamed");
}

#[test]
fn transform_streams() {
    let c = Cli { transform: Some(TransformMode::Upper), ..cli("abc", "") };
    let (out, _) = stream(&c, "x abc y\n");
    assert_eq!(out, "x ABC y\n");
}

#[test]
fn streams_and_buffers_agree_on_uniform_texts() {
    let delete = Cli { find: Some("b".to_string()), delete: true, ..Default::default() };
    let insert = Cli {
        find: Some("b".to_string()),
        before: Some("new".to_string()),
        ..Default::default()
    };
    for c in [cli("b", "x"), cli("zzz", "x"), delete, insert] {
        for text in ["a\nb\nc\n", "a\r\nb\r\nc\r\n", "a\nb\nc", "b\n", "\n\nb\n", ""] {
            let buffered = run_pipe_mode(&c, text.as_bytes().to_vec());
            let (streamed, exit) = stream(&c, text);
            assert_eq!(streamed, buffered.stdout, "on {text:?}");
            assert_eq!(exit, buffered.exit);
        }
    }
}

#[test]
fn a_deleted_last_line_without_a_newline_ends_a_stream_differently() {
    let delete = Cli { find: Some("b".to_string()), delete: true, ..Default::default() };
    assert_eq!(stream(&delete, "a\nb").0, "a\n");
    assert_eq!(run_pipe_mode(&delete, b"a\nb".to_vec()).stdout, "a");
}

// ── What pipes make of text ──

fn finding(find: &str) -> Cli {
    Cli { find: Some(find.to_string()), ..Default::default() }
}

fn transforming(find: &str, mode: &str) -> Cli {
    Cli { transform: Some(mode.parse().unwrap()), ..finding(find) }
}

fn surrounding(find: &str, prefix: &str, suffix: &str) -> Cli {
    Cli { surround: Some(vec![prefix.to_string(), suffix.to_string()]), ..finding(find) }
}

/// The output of a pipe that ends well.
fn piped(c: &Cli, input: &str) -> String {
    let (out, exit) = stream(c, input);
    assert_eq!(exit, Ok(()));
    out
}

#[test]
fn transform_upper_in_pipe_mode() {
    assert_eq!(piped(&transforming("hello", "upper"), "hello\n"), "HELLO\n");
}

#[test]
fn transform_lower_in_pipe_mode() {
    assert_eq!(piped(&transforming("HELLO", "lower"), "HELLO WORLD\n"), "hello WORLD\n");
}

#[test]
fn transform_camel_in_pipe_mode() {
    let out = piped(&transforming("snake_case_name", "camel"), "snake_case_name\n");
    assert_eq!(out, "snakeCaseName\n");
}

#[test]
fn transform_snake_in_pipe_mode() {
    assert_eq!(piped(&transforming("camelCase", "snake"), "camelCase\n"), "camel_case\n");
}

#[test]
fn transform_title_in_pipe_mode() {
    assert_eq!(piped(&transforming("hello world", "title"), "hello world\n"), "Hello World\n");
}

#[test]
fn transform_upper_multiple_lines() {
    let out = piped(&transforming("foo", "upper"), "foo bar\nbaz foo\nno match\n");
    assert!(out.contains("FOO bar"));
    assert!(out.contains("baz FOO"));
    assert!(out.contains("no match"));
}

#[test]
fn surround_in_pipe_mode() {
    assert_eq!(piped(&surrounding("word", "(", ")"), "word\n"), "(word)\n");
}

#[test]
fn surround_wraps_matching_lines_only() {
    let out = piped(
        &surrounding("target", ">>> ", " <<<"),
        "keep this\ntarget line\nkeep too\n",
    );
    assert_eq!(out, "keep this\n>>> target line <<<\nkeep too\n");
}

#[test]
fn surround_multiple_matching_lines() {
    let out = piped(&surrounding("match", "<<", ">>"), "match one\nno hit\nmatch two\n");
    assert_eq!(out, "<<match one>>\nno hit\n<<match two>>\n");
}

#[test]
fn indent_adds_spaces_in_pipe_mode() {
    let c = Cli { indent: Some(4), ..finding("match") };
    assert_eq!(piped(&c, "match line\nother\n"), "    match line\nother\n");
}

#[test]
fn indent_only_affects_matching_lines() {
    let c = Cli { indent: Some(2), ..finding("target") };
    assert_eq!(piped(&c, "keep\ntarget here\nalso keep\n"), "keep\n  target here\nalso keep\n");
}

#[test]
fn dedent_removes_leading_spaces_in_pipe_mode() {
    let c = Cli { dedent: Some(2), ..finding("match") };
    assert_eq!(piped(&c, "  match line\nother\n"), "match line\nother\n");
}

#[test]
fn dedent_removes_only_up_to_amount() {
    let c = Cli { dedent: Some(2), ..finding("match") };
    assert_eq!(piped(&c, "    match line\n"), "  match line\n");
}

#[test]
fn dedent_does_not_remove_more_than_available() {
    let c = Cli { dedent: Some(4), ..finding("match") };
    assert_eq!(piped(&c, " match line\n"), "match line\n");
}

#[test]
fn dedent_only_affects_matching_lines() {
    let c = Cli { dedent: Some(4), ..finding("target") };
    let out = piped(&c, "    keep this\n    target here\n    also keep\n");
    assert_eq!(out, "    keep this\ntarget here\n    also keep\n");
}

#[test]
fn indent_then_dedent_roundtrip_restores_original() {
    let original = "match line\nother stuff\nmatch again\n";
    let indented = piped(&Cli { indent: Some(4), ..finding("match") }, original);
    assert!(indented.contains("    match line"));
    assert!(indented.contains("    match again"));
    let restored = piped(&Cli { dedent: Some(4), ..finding("match") }, &indented);
    assert_eq!(restored, original);
}

#[test]
fn pipe_mode_reads_stdin_writes_stdout() {
    let out = piped(&cli("foo", "bar"), "foo baz foo\nanother foo line\n");
    assert!(out.contains("bar baz bar"));
    assert!(out.contains("another bar line"));
}

#[test]
fn pipe_mode_no_matches_outputs_original() {
    let (out, exit) = stream(&cli("zzz", "yyy"), "hello world\n");
    assert_eq!(exit, Err(1));
    assert_eq!(out, "hello world\n");
}

#[test]
fn pipe_mode_regex_replace() {
    let c = Cli { regex: true, ..cli(r"(\d+)", "NUM") };
    let out = piped(&c, "there are 42 cats and 7 dogs\n");
    assert!(out.contains("there are NUM cats and NUM dogs"));
}

#[test]
fn pipe_mode_delete_lines() {
    let c = Cli { delete: true, ..finding("remove") };
    let out = piped(&c, "keep\nremove this\nkeep too\nremove also\n");
    assert_eq!(out, "keep\nkeep too\n");
}

#[test]
fn pipe_mode_case_insensitive() {
    let c = Cli { case_insensitive: true, ..cli("FOO", "bar") };
    assert!(piped(&c, "Foo is foo and FOO\n").contains("bar is bar and bar"));
}

#[test]
fn missing_find_pattern_fails() {
    assert!(build_pipe_op(&Cli::default()).is_err());
    let out = run_pipe_mode(&Cli::default(), b"some input\n".to_vec());
    assert_eq!(out.exit, Err(2));
}

#[test]
fn insert_after_in_pipe_mode() {
    let c = Cli { after: Some("INSERTED LINE".to_string()), ..finding("marker") };
    let out = piped(&c, "before\nmarker line\nafter\n");
    assert!(out.contains("marker line\nINSERTED LINE\n"));
}

#[test]
fn insert_before_in_pipe_mode() {
    let c = Cli { before: Some("INSERTED LINE".to_string()), ..finding("marker") };
    let out = piped(&c, "before\nmarker line\nafter\n");
    assert!(out.contains("INSERTED LINE\nmarker line\n"));
}

#[test]
fn replace_line_in_pipe_mode() {
    let c = Cli { replace_line: Some("completely new line".to_string()), ..finding("old_line") };
    let out = piped(&c, "keep\nold_line content\nkeep too\n");
    assert_eq!(out, "keep\ncompletely new line\nkeep too\n");
}

#[test]
fn replace_empty_string_removes_occurrences() {
    assert_eq!(piped(&cli("remove_me", ""), "keep remove_me keep\n"), "keep  keep\n");
}

#[test]
fn pipe_flag_forces_pipe_mode() {
    let c = Cli { pipe: true, ..cli("hello", "goodbye") };
    assert_eq!(choose_mode(&c, false), Mode::Pipe);
    assert_eq!(choose_mode(&c, true), Mode::Pipe);
    let out = piped(&c, "hello world\nhello again\n");
    assert!(out.contains("goodbye world"));
    assert!(out.contains("goodbye again"));
}

#[test]
fn non_json_stdin_uses_pipe_mode() {
    let c = cli("hello", "goodbye");
    assert_eq!(choose_mode(&c, false), Mode::Detect);
    assert_eq!(detect_stdin(b"hello world\n", false), StdinKind::Streamed);
    assert!(piped(&c, "hello world\n").contains("goodbye world"));
}

#[test]
fn json_without_operations_key_uses_pipe_mode() {
    let input = br#"{"key": "value", "nested": {"data": true}}"#;
    let c = Cli::default();
    assert_eq!(choose_mode(&c, false), Mode::Detect);
    assert_eq!(detect_stdin(input, false), StdinKind::Buffered);
    assert_eq!(request_text(&input.to_vec()), None);
    assert!(run_pipe_mode(&c, input.to_vec()).exit.is_err());
}

#[test]
fn requests_are_told_from_text_by_their_names() {
    let request = r#"
        {
            "version": "1",
            "operations": [{"op": "replace", "find": "old_value", "replace": "new_value"}],
            "options": {"dry_run": true}
        }"#;
    assert_eq!(detect_stdin(request.as_bytes(), false), StdinKind::Buffered);
    assert_eq!(request_text(&request.as_bytes().to_vec()), Some(request.to_string()));
    let undo = r#"{"undo": {"last": 1}}"#;
    assert_eq!(request_text(&undo.as_bytes().to_vec()), Some(undo.to_string()));
    for text in [
        r#"{"nested": {"operations": []}}"#,
        r#"["operations"]"#,
        r#""operations""#,
        r#"{"operations": []} trailing"#,
        r#"{"operations": []"#,
        "{}",
        "",
    ] {
        assert_eq!(request_text(&text.as_bytes().to_vec()), None, "{text}");
    }
    assert_eq!(request_text(&vec![123, 255, 125]), None);
    assert!(is_request(&vec!["version".to_string(), "operations".to_string()]));
    assert!(is_request(&vec!["undo".to_string()]));
    assert!(!is_request(&vec!["Undo".to_string(), "operation".to_string()]));
    assert!(!is_request(&vec![]));
}

#[test]
fn json_without_operations_key_pipe_mode_with_args() {
    let input = br#"{"key": "value"}"#;
    assert_eq!(detect_stdin(input, false), StdinKind::Buffered);
    assert_eq!(request_text(&input.to_vec()), None);
    let out = run_pipe_mode(&cli("key", "KEY"), input.to_vec());
    assert_eq!(out.exit, Ok(()));
    assert!(out.stdout.contains(r#""KEY""#));
}

#[test]
fn plain_text_starting_with_brace_but_invalid_json() {
    assert_eq!(detect_stdin(b"{hello} world\n", false), StdinKind::Buffered);
    assert_eq!(request_text(&b"{hello} world\n".to_vec()), None);
    let out = run_pipe_mode(&cli("hello", "goodbye"), b"{hello} world\n".to_vec());
    assert_eq!(out.exit, Ok(()));
    assert!(out.stdout.contains("{goodbye} world"));
}

#[test]
fn no_json_flag_forces_pipe_mode() {
    let c = Cli { no_json: true, ..cli("operations", "OPERATIONS") };
    assert_eq!(choose_mode(&c, false), Mode::Pipe);
    let out = piped(&c, r#"{"operations": [{"op": "replace", "find": "x", "replace": "y"}]}"#);
    assert!(out.contains("OPERATIONS"));
}

#[test]
fn no_json_flag_without_args_fails() {
    let c = Cli { no_json: true, ..Cli::default() };
    assert_eq!(choose_mode(&c, false), Mode::Pipe);
    assert!(build_pipe_op(&c).is_err());
}

#[test]
fn json_with_leading_whitespace_detected() {
    assert_eq!(detect_stdin(b"   {\n  \"version\": \"1\"", false), StdinKind::Buffered);
}

#[test]
fn multiline_flag_works_in_pipe_mode() {
    let c = Cli { multiline: true, regex: true, ..cli(r"(\w+)\n(\w+)\n", "$2\n$1\n") };
    let out = run_pipe_mode(&c, b"alpha\nbeta\n".to_vec());
    assert_eq!(out.exit, Ok(()));
    assert_eq!(out.stdout, "beta\nalpha\n");
}
