//! Literals in either case.
use ripsed::matcher::Matcher;
use ripsed::operation::Op;

#[test]
fn either_case_is_found_as_in_lower_case() {
    let op = Op::Replace {
        find: "Foo".to_string(),
        replace: "x".to_string(),
        regex: false,
        case_insensitive: true,
        multiline: false,
        count: Default::default(),
    };
    let matcher = Matcher::new(&op).unwrap();
    let text = "fOO a FOO b fo";
    assert_eq!(matcher.replace(text, "x"), Some("x a x b fo".to_string()));
    let lower = text.to_ascii_lowercase();
    assert_eq!(matcher.replace(&lower, "x"), Some("x a x b fo".to_string()));
}
