//! What holds of every text and pattern, on samples of both.
use ripsed::matcher::Matcher;
use ripsed::operation::Op;

/// Strings over an alphabet, the same ones in every run.
struct Samples {
    state: u64,
}

impl Samples {
    fn new(seed: u64) -> Samples {
        Samples { state: seed }
    }

    fn below(&mut self, n: usize) -> usize {
        self.state = self.state.wrapping_mul(6364136223846793005).wrapping_add(1442695040888963407);
        ((self.state >> 33) as usize) % n
    }

    fn string(&mut self, alphabet: &str, min: usize, max: usize) -> String {
        let chars: Vec<char> = alphabet.chars().collect();
        let len = min + self.below(max - min + 1);
        (0..len).map(|_| chars[self.below(chars.len())]).collect()
    }
}

const WORDS: &str = "abcABC012";
const WORDS_AND_SPACES: &str = "abcABC01 ";
const LETTERS: &str = "abcABCxyZ";
const ANY: &str = "abAB01 .*$\\()[]-_éß漢🎉";
const ROUNDS: usize = 200;

#[test]
fn prop_literal_matches_iff_contains() {
    let mut s = Samples::new(1);
    for _ in 0..ROUNDS {
        let pattern = s.string(WORDS_AND_SPACES, 1, 10);
        let text = s.string(WORDS_AND_SPACES, 0, 60);
        let op = Op::Replace {
        count: Default::default(),
            multiline: false,
            find: pattern.clone(),
            replace: "".into(),
            regex: false,
            case_insensitive: false,
        };
        let m = Matcher::new(&op).unwrap();
        assert_eq!(m.is_match(&text), text.contains(&pattern));
    }
}

#[test]
fn prop_replace_none_iff_not_match() {
    let mut s = Samples::new(2);
    for _ in 0..ROUNDS {
        let pattern = s.string(WORDS, 1, 6);
        let text = s.string(WORDS, 0, 40);
        let replacement = s.string(WORDS, 0, 6);
        let op = Op::Replace {
        count: Default::default(),
            multiline: false,
            find: pattern.clone(),
            replace: replacement.clone(),
            regex: false,
            case_insensitive: false,
        };
        let m = Matcher::new(&op).unwrap();
        let is_match = m.is_match(&text);
        let replaced = m.replace(&text, &replacement);
        assert_eq!(replaced.is_some(), is_match);
    }
}

#[test]
fn prop_replace_with_self_is_identity() {
    let mut s = Samples::new(3);
    for _ in 0..ROUNDS {
        let pattern = s.string(WORDS, 1, 6);
        let text = s.string(WORDS_AND_SPACES, 0, 50);
        let op = Op::Replace {
        count: Default::default(),
            multiline: false,
            find: pattern.clone(),
            replace: pattern.clone(),
            regex: false,
            case_insensitive: false,
        };
        let m = Matcher::new(&op).unwrap();
        if let Some(replaced) = m.replace(&text, &pattern) {
            assert_eq!(replaced, text);
        }
    }
}

#[test]
fn prop_case_insensitive_ascii_symmetric() {
    let mut s = Samples::new(4);
    for _ in 0..ROUNDS {
        let pattern = s.string(LETTERS, 1, 6);
        let text = s.string(LETTERS, 0, 30);
        let op = Op::Replace {
        count: Default::default(),
            multiline: false,
            find: pattern.clone(),
            replace: String::new(),
            regex: false,
            case_insensitive: true,
        };
        let m = Matcher::new(&op).unwrap();
        let matches = m.is_match(&text);
        assert_eq!(
            matches,
            text.to_ascii_lowercase().contains(&pattern.to_ascii_lowercase())
        );
    }
}

#[test]
fn prop_find_replacements_splice_equals_replace() {
    let mut s = Samples::new(5);
    for _ in 0..ROUNDS {
        let text = s.string(ANY, 0, 60);
        let pattern = s.string(ANY, 1, 5);
        let replacement = s.string(ANY, 0, 8);
        let op = Op::Replace {
        count: Default::default(),
            multiline: false,
            find: pattern.clone(),
            replace: replacement.clone(),
            regex: false,
            case_insensitive: false,
        };
        let m = Matcher::new(&op).unwrap();
        let spans = m.find_replacements(&text, &replacement);
        let mut spliced = String::new();
        let mut last = 0;
        for s in &spans {
            spliced.push_str(&text[last..s.start]);
            spliced.push_str(&s.replacement);
            last = s.end;
        }
        spliced.push_str(&text[last..]);
        let expected = m.replace(&text, &replacement).unwrap_or_else(|| text.clone());
        assert_eq!(spliced, expected);
    }
}

#[test]
fn test_find_replacements_literal_spans() {
    let op = Op::Replace {
        count: Default::default(),
        multiline: false,
        find: "ab".to_string(),
        replace: "X".to_string(),
        regex: false,
        case_insensitive: false,
    };
    let m = Matcher::new(&op).unwrap();
    let spans = m.find_replacements("ab--ab", "X");
    assert_eq!(spans.len(), 2);
    assert_eq!((spans[0].start, spans[0].end), (0, 2));
    assert_eq!((spans[1].start, spans[1].end), (4, 6));
    assert_eq!(spans[0].replacement, "X");
}

#[test]
fn test_find_replacements_regex_capture_expansion() {
    let op = Op::Replace {
        count: Default::default(),
        multiline: false,
        find: r"(\d+)-(\d+)".to_string(),
        replace: "$2-$1".to_string(),
        regex: true,
        case_insensitive: false,
    };
    let m = Matcher::new(&op).unwrap();
    let spans = m.find_replacements("1-2 and 3-4", "$2-$1");
    assert_eq!(spans.len(), 2);
    assert_eq!(spans[0].replacement, "2-1");
    assert_eq!(spans[1].replacement, "4-3");
}

#[test]
fn test_find_replacements_across_newlines() {
    let op = Op::Replace {
        count: Default::default(),
        multiline: true,
        find: "a\nb".to_string(),
        replace: "ab".to_string(),
        regex: false,
        case_insensitive: false,
    };
    let m = Matcher::new(&op).unwrap();
    let spans = m.find_replacements("x\na\nb\ny", "ab");
    assert_eq!(spans.len(), 1);
    assert_eq!((spans[0].start, spans[0].end), (2, 5));
}

#[test]
fn test_find_replacements_no_match_is_empty() {
    let op = Op::Replace {
        count: Default::default(),
        multiline: false,
        find: "zzz".to_string(),
        replace: "x".to_string(),
        regex: false,
        case_insensitive: false,
    };
    let m = Matcher::new(&op).unwrap();
    assert!(m.find_replacements("abc", "x").is_empty());
}
