//! Discovery of files, and names.
use ripsed::files::{
    backup_path_for, choose_files, discover_files, discovery_opts_from, is_binary,
    is_lock_sentinel, is_worth_reading, next_backup, undo_dir, undo_log_path, DiscoveryOptions,
    FileIdentity, FoundEntry, BINARY_CHECK_SIZE,
};
use ripsed::globs::{
    glob_match, is_selected, select_files, tell_can_ignore, tell_can_select, FileName,
};
use ripsed::operation::OpOptions;

fn entry(path: &str, inode: u64) -> FoundEntry {
    FoundEntry {
        path: path.to_string(),
        name: Some(path.rsplit('/').next().unwrap().to_string()),
        is_file: true,
        binary: Some(false),
        identity: Some(FileIdentity { device: 1, inode }),
    }
}

fn options(ignore: Option<&str>) -> DiscoveryOptions {
    DiscoveryOptions {
        root: ".".to_string(),
        glob: None,
        ignore_pattern: ignore.map(|s| s.to_string()),
        gitignore: false,
        hidden: false,
        max_depth: None,
        follow_links: false,
    }
}

#[test]
fn is_binary_detects_null_bytes() {
    assert!(is_binary(b"\x00\x01\x02\x03"));
}

#[test]
fn is_binary_text_file() {
    assert!(!is_binary(b"just text\n"));
}

#[test]
fn is_binary_null_at_position_after_512() {
    let mut data = vec![b'A'; 1000];
    data[999] = 0;
    assert!(is_binary(&data));
}

#[test]
fn is_binary_null_just_inside_8kb() {
    let mut data = vec![b'X'; BINARY_CHECK_SIZE];
    data[BINARY_CHECK_SIZE - 1] = 0;
    assert!(is_binary(&data));
}

#[test]
fn is_binary_null_just_past_8kb() {
    let mut data = vec![b'X'; BINARY_CHECK_SIZE + 1];
    data[BINARY_CHECK_SIZE] = 0;
    assert!(!is_binary(&data));
    assert!(!is_binary(&data[..BINARY_CHECK_SIZE]));
}

#[test]
fn is_binary_empty_file() {
    assert!(!is_binary(b""));
}

#[test]
fn utf16_text_is_no_data() {
    assert!(!is_binary(&[0xFF, 0xFE, b'a', 0x00]));
    assert!(!is_binary(&[0xFE, 0xFF, 0x00, b'a']));
    assert!(is_binary(&[0xFF, b'a', 0x00]));
}

#[test]
fn sentinels_are_told_by_their_suffix() {
    assert!(is_lock_sentinel(Some("file_0.txt.ripsed.lock")));
    assert!(is_lock_sentinel(Some("bare.ripsed.lock")));
    assert!(is_lock_sentinel(Some(".ripsed.lock")));
    assert!(!is_lock_sentinel(Some("ripsed.lock")));
    assert!(!is_lock_sentinel(Some("file.txt")));
    assert!(!is_lock_sentinel(None));
}

#[test]
fn sentinels_and_directories_are_not_read() {
    assert!(is_worth_reading(&entry("a/b.txt", 1)));
    assert!(!is_worth_reading(&entry("a/b.txt.ripsed.lock", 1)));
    let mut dir = entry("a", 1);
    dir.is_file = false;
    assert!(!is_worth_reading(&dir));
}

#[test]
fn only_text_files_are_discovered() {
    let mut data = entry("data.bin", 1);
    data.binary = Some(true);
    let mut unread = entry("locked.txt", 2);
    unread.binary = None;
    let mut dir = entry("sub", 3);
    dir.is_file = false;
    let entries =
        vec![data, entry("a.txt", 4), unread, entry("x.ripsed.lock", 5), dir, entry("b.txt", 6)];
    assert_eq!(discover_files(&entries, &options(None)), vec![1, 5]);
}

#[test]
fn a_file_under_two_names_is_discovered_once() {
    let mut other_device = entry("c.txt", 7);
    other_device.identity = Some(FileIdentity { device: 2, inode: 7 });
    let entries = vec![entry("a.txt", 7), entry("b.txt", 7), other_device, entry("d.txt", 8)];
    assert_eq!(discover_files(&entries, &options(None)), vec![0, 2, 3]);
}

#[test]
fn a_name_that_is_left_out_does_not_hide_another() {
    let entries = vec![entry("a.txt", 7), entry("b.txt", 7)];
    assert_eq!(choose_files(&entries, &vec![true, false]), vec![1]);
}

#[test]
fn files_of_unknown_identity_are_all_kept() {
    let mut a = entry("a.txt", 1);
    a.identity = None;
    let mut b = entry("b.txt", 1);
    b.identity = None;
    assert_eq!(discover_files(&vec![a, b], &options(None)), vec![0, 1]);
}

#[test]
fn identities_do_not_run_into_each_other() {
    let mut a = entry("a.txt", 0);
    a.identity = Some(FileIdentity { device: 1, inode: 0 });
    let mut b = entry("b.txt", 0);
    b.identity = Some(FileIdentity { device: 0, inode: u64::MAX });
    assert_eq!(discover_files(&vec![a, b], &options(None)), vec![0, 1]);
}

#[test]
fn the_ignore_pattern_leaves_files_out() {
    let entries = vec![entry("src/a.rs", 1), entry("src/b.log", 2), entry("c.log", 3)];
    assert_eq!(discover_files(&entries, &options(Some("*.log"))), vec![0]);
    assert_eq!(discover_files(&entries, &options(Some("[bad"))), vec![0, 1, 2]);
}

#[test]
fn ignore_patterns_read_like_lines_of_an_ignore_file() {
    assert!(glob_match("*.log", "a/b/c.log"));
    assert!(!glob_match("*.log", "a/b/c.txt"));
    assert!(!glob_match("# comment", "# comment"));
    assert!(glob_match("build", "a/build"));
}

fn file(path: &str) -> FileName {
    FileName {
        path: path.to_string(),
        name: Some(path.rsplit('/').next().unwrap().to_string()),
    }
}

#[test]
fn globs_select_by_path_or_by_name() {
    let files = vec![file("src/a.rs"), file("src/deep/b.rs"), file("notes.txt")];
    assert_eq!(select_files(&None, &files), vec![true, true, true]);
    assert_eq!(select_files(&Some("*.rs".to_string()), &files), vec![true, true, false]);
    assert_eq!(select_files(&Some("src/*.rs".to_string()), &files), vec![true, false, false]);
    assert_eq!(select_files(&Some("src/**/*.rs".to_string()), &files), vec![true, true, false]);
}

#[test]
fn a_glob_that_does_not_compile_selects_all() {
    let files = vec![file("a.rs"), file("b.txt")];
    assert_eq!(select_files(&Some("[z-a]".to_string()), &files), vec![true, true]);
}

#[test]
fn verdicts_make_a_choice() {
    assert!(is_selected(None, None));
    assert!(is_selected(Some(true), Some(false)));
    assert!(is_selected(Some(false), Some(true)));
    assert!(!is_selected(Some(false), Some(false)));
    assert!(!is_selected(Some(false), None));
}

#[test]
fn options_of_an_operation_become_options_of_discovery() {
    let opts = OpOptions {
        glob: Some("*.rs".to_string()),
        ignore: Some("*.log".to_string()),
        hidden: true,
        max_depth: Some(2),
        ..OpOptions::default()
    };
    let d = discovery_opts_from(&opts, "/work");
    assert_eq!(d.root, "/work");
    assert_eq!(d.glob.as_deref(), Some("*.rs"));
    assert_eq!(d.ignore_pattern.as_deref(), Some("*.log"));
    assert!(d.gitignore && d.hidden && !d.follow_links);
    assert_eq!(d.max_depth, Some(2));
    let rooted = OpOptions { root: Some("/other".to_string()), ..OpOptions::default() };
    assert_eq!(discovery_opts_from(&rooted, "/work").root, "/other");
}

#[test]
fn the_undo_log_has_its_place() {
    assert_eq!(undo_dir("/work"), "/work/.ripsed");
    assert_eq!(undo_log_path("/work"), "/work/.ripsed/undo.jsonl");
    assert_eq!(undo_log_path("/"), "/.ripsed/undo.jsonl");
}

#[test]
fn create_backup_basic() {
    assert_eq!(backup_path_for("data.txt"), "data.txt.ripsed.bak");
}

#[test]
fn create_backup_no_extension() {
    assert_eq!(backup_path_for("Makefile"), "Makefile.ripsed.bak");
}

#[test]
fn create_backup_numbered_when_exists() {
    assert_eq!(backup_path_for("data.txt"), "data.txt.ripsed.bak");
    assert_eq!(next_backup("data.txt", 0).as_deref(), Some("data.txt.ripsed.bak.1"));
    assert_eq!(next_backup("data.txt", 1).as_deref(), Some("data.txt.ripsed.bak.2"));
    assert_eq!(next_backup("data.txt", 99).as_deref(), Some("data.txt.ripsed.bak.100"));
    assert_eq!(next_backup("data.txt", u32::MAX), None);
}

#[test]
fn globs_that_nest_without_end_are_malformed() {
    let files = vec![file("a.rs")];
    let deep = format!("{}a{}", "{".repeat(1001), "}".repeat(1001));
    assert_eq!(select_files(&Some(deep.clone()), &files), vec![true]);
    assert!(!glob_match(&deep, "a"));
    let hidden = format!("{}a", "{[}]".repeat(1001));
    assert_eq!(select_files(&Some(hidden), &files), vec![true]);
}

#[test]
fn groups_in_a_row_do_not_nest() {
    let files = vec![file("a.rs")];
    let flat = format!("{}*.py", "{a,b}".repeat(3));
    assert_eq!(select_files(&Some(flat), &files), vec![false]);
    let long = "{a}".repeat(1001);
    assert_eq!(select_files(&Some(long.clone()), &files), vec![false]);
    assert_eq!(select_files(&Some(long.clone()), &vec![file(&"a".repeat(1001))]), vec![true]);
    assert!(glob_match(&long, &"a".repeat(1001)));
    let class = "[{]".repeat(1001);
    assert_eq!(select_files(&Some(class), &files), vec![false]);
}

#[test]
fn escaped_braces_do_not_nest() {
    let escaped = r"\{".repeat(1001);
    let literal = "{".repeat(1001);
    assert!(tell_can_ignore(&Some(escaped.clone())));
    assert!(glob_match(&escaped, &literal));
    assert!(!glob_match(&escaped, "a"));
}

#[test]
fn braces_around_nothing_are_limited() {
    let hollow = format!("{}{}a", "{".repeat(1000), "}".repeat(1000));
    assert!(tell_can_select(&Some(hollow.clone())));
    assert!(tell_can_ignore(&Some(hollow.clone())));
    assert_eq!(select_files(&Some(hollow.clone()), &vec![file("a"), file("b")]), vec![true, false]);
    assert!(glob_match(&hollow, "a"));
    let deeper = Some(format!("{}{}a", "{".repeat(1001), "}".repeat(1001)));
    assert!(!tell_can_select(&deeper));
    assert!(!tell_can_ignore(&deeper));
    assert!(tell_can_select(&None) && tell_can_ignore(&None));
}

#[test]
fn a_class_without_an_end_is_literal_in_ignore_patterns() {
    assert!(glob_match("[abc", "[abc"));
    assert!(!glob_match("[abc", "a"));
    assert_eq!(select_files(&Some("[abc".to_string()), &vec![file("x.rs")]), vec![true]);
}

#[test]
fn long_globs_are_compiled() {
    let long = "a".repeat(300000);
    assert_eq!(select_files(&Some(long.clone()), &vec![file(&long), file("a")]), vec![true, false]);
    assert!(glob_match(&long, &long));
}
