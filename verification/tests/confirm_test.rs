//! Answers to questions.
use ripsed::confirm::{parse_confirm_response, ConfirmAction};

#[test]
fn yes_variants_map_to_yes() {
    for input in ["y", "yes", "Y", "YES", "Yes", "  y  ", "y\n", "yes\r\n"] {
        assert_eq!(
            parse_confirm_response(input),
            ConfirmAction::Yes,
            "input {input:?} should be Yes"
        );
    }
}

#[test]
fn all_variants_map_to_apply_all() {
    for input in ["a", "all", "A", "ALL", "all\n"] {
        assert_eq!(parse_confirm_response(input), ConfirmAction::ApplyAll);
    }
}

#[test]
fn skip_variants_map_to_skip_file() {
    for input in ["s", "skip", "S", "SKIP", "skip\n"] {
        assert_eq!(parse_confirm_response(input), ConfirmAction::SkipFile);
    }
}

#[test]
fn quit_variants_map_to_quit() {
    for input in ["q", "quit", "Q", "QUIT", "quit\n"] {
        assert_eq!(parse_confirm_response(input), ConfirmAction::Quit);
    }
}

#[test]
fn explicit_no_maps_to_no() {
    for input in ["n", "no", "N", "NO", "no\n"] {
        assert_eq!(parse_confirm_response(input), ConfirmAction::No);
    }
}

#[test]
fn empty_input_defaults_to_no() {
    // read_line yields "" at EOF and "\n" for a bare Enter — both must
    // default to the safe answer, not apply changes.
    for input in ["", "\n", "\r\n", "   ", "\t\n"] {
        assert_eq!(
            parse_confirm_response(input),
            ConfirmAction::No,
            "input {input:?} should default to No"
        );
    }
}

#[test]
fn unrecognized_input_defaults_to_no() {
    for input in ["x", "yep", "nah", "quit now", "ja", "1", "true", "ye s"] {
        assert_eq!(
            parse_confirm_response(input),
            ConfirmAction::No,
            "input {input:?} should default to No"
        );
    }
}
