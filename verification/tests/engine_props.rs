//! What holds of every text and pattern, on samples of both.
use ripsed::engine::apply;
use ripsed::matcher::Matcher;
use ripsed::operation::{LineRange, Op, RangeSpec, TransformMode};

/// Strings over an alphabet, the same ones in every run.
struct Samples {
    state: u64,
}

impl Samples {
    fn new(seed: u64) -> Samples {
        Samples { state: seed }
    }

    fn below(&mut self, n: usize) -> usize {
        self.state = self.state.wrapping_mul(6364136223846793005).wrapping_add(1442695040888963407);
        ((self.state >> 33) as usize) % n
    }

    fn flip(&mut self) -> bool {
        self.below(2) == 1
    }

    fn string(&mut self, alphabet: &str, min: usize, max: usize) -> String {
        let chars: Vec<char> = alphabet.chars().collect();
        let len = min + self.below(max - min + 1);
        (0..len).map(|_| chars[self.below(chars.len())]).collect()
    }
}

const WORDS: &str = "abcABC012";
const WORDS_AND_SPACES: &str = "abcABC01 ";
const LETTERS: &str = "abcABCxyZ";
const LOWER: &str = "abcxyz";
const ROUNDS: usize = 200;

/// Lines of any characters, each with a line feed.
fn multiline_text(s: &mut Samples) -> String {
    let n = 1 + s.below(9);
    let lines: Vec<String> =
        (0..n).map(|_| s.string("abcABC012 .,;-_(){}\tüé漢", 0, 40)).collect();
    lines.join("\n") + "\n"
}

#[test]
fn prop_splice_equals_line_path() {
    let mut s = Samples::new(1);
    for _ in 0..ROUNDS {
        let text = multiline_text(&mut s);
        let find = s.string(WORDS, 1, 8);
        let replace = s.string(WORDS_AND_SPACES, 0, 8);
        let case_insensitive = s.flip();
        let op = Op::Replace {
            count: Default::default(),
            multiline: false,
            find,
            replace,
            regex: false,
            case_insensitive,
        };
        let matcher = Matcher::new(&op).unwrap();
        let spliced = apply(&text, &op, &matcher, None, 2).unwrap();
        let looped = apply(
            &text,
            &op,
            &matcher,
            Some(RangeSpec::Lines(LineRange { start: 1, end: None })),
            2,
        )
        .unwrap();
        assert_eq!(spliced.text, looped.text);
        assert_eq!(spliced.changes, looped.changes);
    }
}

#[test]
fn prop_roundtrip_undo() {
    let mut s = Samples::new(2);
    for _ in 0..ROUNDS {
        let text = multiline_text(&mut s);
        let find = s.string(WORDS, 1, 8);
        let replace = s.string(WORDS, 0, 8);
        let op = Op::Replace {
            count: Default::default(),
            multiline: false,
            find: find.clone(),
            replace: replace.clone(),
            regex: false,
            case_insensitive: false,
        };
        let matcher = Matcher::new(&op).unwrap();
        let result = apply(&text, &op, &matcher, None, 0).unwrap();

        if let Some(undo) = &result.undo {
            // Undo should restore original text
            assert_eq!(&undo.original_text, &text);
        }
        // If no changes, text should be None
        if result.text.is_none() {
            assert!(result.changes.is_empty());
        }
    }
}

#[test]
fn prop_noop_nonmatching_pattern() {
    let mut s = Samples::new(3);
    for _ in 0..ROUNDS {
        let text = multiline_text(&mut s);
        // Use a pattern with a NUL byte which will never appear in text generated
        // by arb_multiline_text
        let op = Op::Replace {
            count: Default::default(),
            multiline: false,
            find: "\x00\x00NOMATCH\x00\x00".to_string(),
            replace: "replacement".to_string(),
            regex: false,
            case_insensitive: false,
        };
        let matcher = Matcher::new(&op).unwrap();
        let result = apply(&text, &op, &matcher, None, 0).unwrap();
        assert!(result.text.is_none(), "Non-matching pattern should not modify text");
        assert!(result.changes.is_empty());
        assert!(result.undo.is_none());
    }
}

#[test]
fn prop_deterministic() {
    let mut s = Samples::new(4);
    for _ in 0..ROUNDS {
        let text = multiline_text(&mut s);
        let find = s.string(WORDS, 1, 8);
        let replace = s.string(WORDS, 0, 8);
        let op = Op::Replace {
            count: Default::default(),
            multiline: false,
            find,
            replace,
            regex: false,
            case_insensitive: false,
        };
        let matcher = Matcher::new(&op).unwrap();
        let r1 = apply(&text, &op, &matcher, None, 0).unwrap();
        let r2 = apply(&text, &op, &matcher, None, 0).unwrap();
        assert_eq!(&r1.text, &r2.text);
        assert_eq!(r1.changes.len(), r2.changes.len());
    }
}

#[test]
fn prop_replace_preserves_line_count() {
    let mut s = Samples::new(5);
    for _ in 0..ROUNDS {
        let text = multiline_text(&mut s);
        let find = s.string(WORDS, 1, 8);
        let replace = s.string(WORDS, 0, 8);
        let op = Op::Replace {
            count: Default::default(),
            multiline: false,
            find,
            replace,
            regex: false,
            case_insensitive: false,
        };
        let matcher = Matcher::new(&op).unwrap();
        let result = apply(&text, &op, &matcher, None, 0).unwrap();
        if let Some(ref output) = result.text {
            let input_lines = text.lines().count();
            let output_lines = output.lines().count();
            assert_eq!(
                input_lines,
                output_lines,
                "Replace should preserve line count: input={} output={}",
                input_lines,
                output_lines
            );
        }
    }
}

#[test]
fn prop_indent_dedent_roundtrip() {
    let mut s = Samples::new(6);
    for _ in 0..ROUNDS {
        let amount: usize = 1 + s.below(16);
        // Use a known find pattern that appears on every line
        let find = "marker".to_string();
        let text = "marker line one\nmarker line two\nmarker line three\n";

        let indent_op = Op::Indent {
            find: find.clone(),
            amount,
            use_tabs: false,
            regex: false,
            case_insensitive: false,
        };
        let indent_matcher = Matcher::new(&indent_op).unwrap();
        let indented = apply(text, &indent_op, &indent_matcher, None, 0).unwrap();
        let indented_text = indented.text.unwrap();

        // Every line should now start with `amount` spaces
        for line in indented_text.lines() {
            let leading = line.len() - line.trim_start_matches(' ').len();
            assert!(leading >= amount, "Expected at least {} leading spaces, got {}", amount, leading);
        }

        let dedent_op = Op::Dedent {
            find: find.clone(),
            amount,
            use_tabs: false,
            regex: false,
            case_insensitive: false,
        };
        let dedent_matcher = Matcher::new(&dedent_op).unwrap();
        let dedented = apply(&indented_text, &dedent_op, &dedent_matcher, None, 0).unwrap();
        assert_eq!(dedented.text.unwrap(), text);
    }
}

#[test]
fn prop_transform_upper_lower_roundtrip() {
    let mut s = Samples::new(7);
    for _ in 0..ROUNDS {
        let find = s.string(LOWER, 1, 8);
        let text = format!("prefix {find} suffix\n");

        let upper_op = Op::Transform {
            find: find.clone(),
            mode: TransformMode::Upper,
            regex: false,
            case_insensitive: false,
        };
        let upper_matcher = Matcher::new(&upper_op).unwrap();
        let uppered = apply(&text, &upper_op, &upper_matcher, None, 0).unwrap();

        if let Some(ref upper_text) = uppered.text {
            let upper_find = find.to_uppercase();
            let lower_op = Op::Transform {
                find: upper_find,
                mode: TransformMode::Lower,
                regex: false,
                case_insensitive: false,
            };
            let lower_matcher = Matcher::new(&lower_op).unwrap();
            let lowered = apply(upper_text, &lower_op, &lower_matcher, None, 0).unwrap();
            assert_eq!(lowered.text.unwrap(), text);
        }
    }
}

#[test]
fn prop_surround_preserves_line_count() {
    let mut s = Samples::new(8);
    for _ in 0..ROUNDS {
        let text = multiline_text(&mut s);
        let find = s.string(WORDS, 1, 8);
        let op = Op::Surround {
            find,
            prefix: "<<".to_string(),
            suffix: ">>".to_string(),
            regex: false,
            case_insensitive: false,
        };
        let matcher = Matcher::new(&op).unwrap();
        let result = apply(&text, &op, &matcher, None, 0).unwrap();
        if let Some(ref output) = result.text {
            let input_lines = text.lines().count();
            let output_lines = output.lines().count();
            assert_eq!(
                input_lines,
                output_lines,
                "Surround should preserve line count: input={} output={}",
                input_lines,
                output_lines
            );
        }
    }
}

#[test]
fn prop_transform_preserves_line_count() {
    let mut s = Samples::new(9);
    for _ in 0..ROUNDS {
        let text = multiline_text(&mut s);
        let find = s.string(WORDS, 1, 8);
        let op = Op::Transform {
            find,
            mode: TransformMode::Upper,
            regex: false,
            case_insensitive: false,
        };
        let matcher = Matcher::new(&op).unwrap();
        let result = apply(&text, &op, &matcher, None, 0).unwrap();
        if let Some(ref output) = result.text {
            let input_lines = text.lines().count();
            let output_lines = output.lines().count();
            assert_eq!(
                input_lines,
                output_lines,
                "Transform should preserve line count: input={} output={}",
                input_lines,
                output_lines
            );
        }
    }
}

#[test]
fn prop_indent_preserves_line_count() {
    let mut s = Samples::new(10);
    for _ in 0..ROUNDS {
        let text = multiline_text(&mut s);
        let find = s.string(WORDS, 1, 8);
        let amount: usize = 1 + s.below(16);
        let op = Op::Indent {
            find,
            amount,
            use_tabs: false,
            regex: false,
            case_insensitive: false,
        };
        let matcher = Matcher::new(&op).unwrap();
        let result = apply(&text, &op, &matcher, None, 0).unwrap();
        if let Some(ref output) = result.text {
            let input_lines = text.lines().count();
            let output_lines = output.lines().count();
            assert_eq!(
                input_lines,
                output_lines,
                "Indent should preserve line count: input={} output={}",
                input_lines,
                output_lines
            );
        }
    }
}

#[test]
fn prop_change_lines_ascending_and_in_bounds() {
    let mut s = Samples::new(11);
    for _ in 0..ROUNDS {
        let text = multiline_text(&mut s);
        let find = s.string(WORDS, 1, 8);
        let replace = s.string(WORDS, 0, 8);
        let op = Op::Replace {
            count: Default::default(),
            multiline: false,
            find,
            replace,
            regex: false,
            case_insensitive: false,
        };
        let matcher = Matcher::new(&op).unwrap();
        let result = apply(&text, &op, &matcher, None, 0).unwrap();
        let max_line = text.lines().count();
        let mut prev: usize = 0;
        for change in &result.changes {
            assert!(change.line >= 1, "Line numbers must be 1-indexed, got {}", change.line);
            assert!(
                change.line <= max_line,
                "Line {} out of input range (max {})",
                change.line,
                max_line
            );
            assert!(
                change.line > prev,
                "Changes must be strictly ascending by line: prev={} current={}",
                prev,
                change.line
            );
            prev = change.line;
        }
    }
}

#[test]
fn prop_delete_exact_line_count() {
    let mut s = Samples::new(12);
    for _ in 0..ROUNDS {
        let find = s.string(WORDS, 1, 8);
        let match_count: usize = 0 + s.below(9);
        let nonmatch_count: usize = 0 + s.below(9);
        let match_lines: Vec<String> = (0..match_count)
            .map(|_| format!("-- {} --", find))
            .collect();
        // Filler chars are punctuation only — cannot contain any char
        // from [a-zA-Z0-9], so they cannot contain the find pattern.
        let nonmatch_lines: Vec<String> = (0..nonmatch_count)
            .map(|_| "--- filler ---".to_string())
            .collect();
        // Assert our filler hypothesis before running the engine.
        for l in &nonmatch_lines {
            if !(!l.contains(&find)) {
                continue;
            }
        }
        // Interleave deterministically.
        let mut merged = Vec::with_capacity(match_count + nonmatch_count);
        let mut mi = match_lines.iter();
        let mut ni = nonmatch_lines.iter();
        loop {
            let m = mi.next();
            let n = ni.next();
            if m.is_none() && n.is_none() { break; }
            if let Some(m) = m { merged.push(m.clone()); }
            if let Some(n) = n { merged.push(n.clone()); }
        }
        if merged.is_empty() {
            // Degenerate: no lines at all — nothing interesting to test.
            continue;
        }
        let text = merged.join("\n") + "\n";

        let op = Op::Delete {
            multiline: false,
            find: find.clone(),
            regex: false,
            case_insensitive: false,
        };
        let matcher = Matcher::new(&op).unwrap();
        let result = apply(&text, &op, &matcher, None, 0).unwrap();

        let expected_deletions: usize = text.lines().filter(|l| l.contains(&find)).count();
        assert_eq!(
            expected_deletions,
            match_count,
            "test construction bug: matcher-count must equal match_count"
        );

        if expected_deletions == 0 {
            assert!(result.text.is_none());
            assert!(result.changes.is_empty());
        } else {
            let input_lines = text.lines().count();
            let output_lines = result.text.as_ref().unwrap().lines().count();
            assert_eq!(
                input_lines - expected_deletions,
                output_lines,
                "Delete removed wrong number of lines: expected {} - {} = {}, got {}",
                input_lines,
                expected_deletions,
                input_lines - expected_deletions,
                output_lines
            );
            assert_eq!(result.changes.len(), expected_deletions);
        }
    }
}

#[test]
fn prop_crlf_majority_preserved() {
    let mut s = Samples::new(13);
    for _ in 0..ROUNDS {
        let find = s.string(LETTERS, 1, 6);
        let replace = s.string(LETTERS, 0, 6);
        // Build heavily-CRLF text with enough matches that the replace
        // doesn't turn into a no-op.
        let text = format!(
            "line {find} one\r\n{find} middle\r\nanother {find} here\r\nending\r\n"
        );
        let op = Op::Replace {
            count: Default::default(),
            multiline: false,
            find: find.clone(),
            replace,
            regex: false,
            case_insensitive: false,
        };
        let matcher = Matcher::new(&op).unwrap();
        let result = apply(&text, &op, &matcher, None, 0).unwrap();
        if let Some(ref output) = result.text {
            let crlf = output.matches("\r\n").count();
            let bare_lf = output.matches('\n').count() - crlf;
            assert!(
                crlf > bare_lf,
                "CRLF majority lost: {crlf} CRLF vs {bare_lf} bare LF in {output:?}"
            );
        }
    }
}

#[test]
fn prop_replace_change_count_matches_containing_lines() {
    let mut s = Samples::new(14);
    for _ in 0..ROUNDS {
        let find = s.string(WORDS, 1, 8);
        let replace = s.string(LETTERS, 0, 8);
        // Build a text with a known, nonzero number of lines containing the pattern.
        let text = format!(
            "head\n{find} one\nmiddle\n{find} two {find}\ntail\n"
        );
        let op = Op::Replace {
            count: Default::default(),
            multiline: false,
            find: find.clone(),
            replace,
            regex: false,
            case_insensitive: false,
        };
        let matcher = Matcher::new(&op).unwrap();
        let result = apply(&text, &op, &matcher, None, 0).unwrap();

        let expected: usize = text.lines().filter(|l| l.contains(&find)).count();
        assert_eq!(result.changes.len(), expected);
    }
}

#[test]
fn prop_no_trailing_newline_preserved() {
    let mut s = Samples::new(15);
    for _ in 0..ROUNDS {
        let find = s.string(LETTERS, 1, 6);
        let replace = s.string(LETTERS, 1, 6);
        // Build text WITHOUT a trailing newline, with the pattern on the
        // last line so replacement happens there.
        let text = format!("first line\nlast line with {find}");
        if !(!text.ends_with('\n')) {
                continue;
            }

        let op = Op::Replace {
            count: Default::default(),
            multiline: false,
            find,
            replace,
            regex: false,
            case_insensitive: false,
        };
        let matcher = Matcher::new(&op).unwrap();
        let result = apply(&text, &op, &matcher, None, 0).unwrap();
        if let Some(ref output) = result.text {
            assert!(
                !output.ends_with('\n'),
                "Spurious trailing newline added to {output:?} (input had none)"
            );
        }
    }
}
