use mds::error::Error;
use mds::extract::{
    default_output_dir, escape_control_chars, extraction_plan, is_safe_component, output_dir_action,
    step_target_check, symlink_check_prefixes, tree_listing, DirAction, DirState, ExtractStep,
};
use mds::iso9660::{DirEntry, EntryKind};

#[test]
fn rejects_traversal_and_separators() {
    assert!(!is_safe_component(""));
    assert!(!is_safe_component("."));
    assert!(!is_safe_component(".."));
    assert!(!is_safe_component("foo/bar"));
    assert!(!is_safe_component("foo\\bar"));
    assert!(!is_safe_component("a\0b"));
    assert!(is_safe_component("README.TXT"));
    assert!(is_safe_component("file with spaces.dat"));
}

#[test]
fn rejects_windows_reserved_chars_and_control_chars() {
    for c in ['*', '?', '"', '<', '>', '|'] {
        let s = format!("foo{c}bar");
        assert!(!is_safe_component(&s), "expected rejection of {s:?}");
    }
    assert!(!is_safe_component("foo\x01bar"));
    assert!(!is_safe_component("foo\x1Fbar"));
    assert!(!is_safe_component("foo\x7Fbar"));
}

#[test]
fn rejects_windows_drive_prefixes_and_colons() {
    // ':' would be a drive prefix on Windows: rejected on every platform.
    assert!(!is_safe_component("C:foo"));
    assert!(!is_safe_component(":foo"));
    assert!(!is_safe_component("a:b"));
}

#[test]
fn accepts_dotted_and_unicode_names() {
    assert!(is_safe_component("..."));
    assert!(is_safe_component(".hidden"));
    assert!(is_safe_component("café"));
    assert!(is_safe_component("CON"));
}

#[test]
fn default_output_dir_is_the_basename() {
    assert_eq!(default_output_dir("PMagic_8.mds"), "PMagic_8");
    assert_eq!(default_output_dir("/images/disc.one.mds"), "disc.one");
}

fn file(name: &str, lba: u32, size: u32) -> DirEntry {
    DirEntry {
        name: name.to_string(),
        kind: EntryKind::File { lba, size },
    }
}

fn dir(name: &str, children: Vec<DirEntry>) -> DirEntry {
    DirEntry {
        name: name.to_string(),
        kind: EntryKind::Dir(children),
    }
}

#[test]
fn listing_indents_children() {
    let tree = vec![
        dir("DOCS", vec![file("A.TXT", 30, 12), dir("EMPTY", vec![])]),
        file("README", 20, 5),
    ];
    let lines = tree_listing(&tree, "");
    assert_eq!(
        lines,
        vec![
            "DOCS/".to_string(),
            "  A.TXT  (12 bytes)".to_string(),
            "  EMPTY/".to_string(),
            "README  (5 bytes)".to_string(),
        ]
    );
}

#[test]
fn plan_writes_depth_first() {
    let tree = vec![dir("DOCS", vec![file("A.TXT", 30, 12)]), file("README", 20, 5)];
    let plan = extraction_plan(&tree);
    assert_eq!(plan.len(), 3);
    assert!(matches!(&plan[0], ExtractStep::MakeDir(p) if p == &vec!["DOCS".to_string()]));
    assert!(matches!(&plan[1], ExtractStep::WriteFile { path, lba: 30, size: 12 }
        if path == &vec!["DOCS".to_string(), "A.TXT".to_string()]));
    assert!(matches!(&plan[2], ExtractStep::WriteFile { path, lba: 20, size: 5 }
        if path == &vec!["README".to_string()]));
}

#[test]
fn plan_stops_at_unsafe_name() {
    let tree = vec![
        file("OK", 20, 1),
        dir("SUB", vec![file("..", 21, 1), file("NEVER", 22, 1)]),
        file("LATER", 23, 1),
    ];
    let plan = extraction_plan(&tree);
    assert_eq!(plan.len(), 3);
    assert!(matches!(&plan[0], ExtractStep::WriteFile { lba: 20, .. }));
    assert!(matches!(&plan[1], ExtractStep::MakeDir(_)));
    assert!(matches!(&plan[2], ExtractStep::Reject(n) if n == ".."));
}

#[test]
fn listing_escapes_control_characters() {
    let tree = vec![
        dir("A\u{1b}[2J", vec![file("B\nC", 30, 7)]),
        file("D\u{7f}\u{9b}E", 20, 0),
    ];
    let lines = tree_listing(&tree, "");
    assert_eq!(
        lines,
        vec![
            "A\\u{1b}[2J/".to_string(),
            "  B\\u{a}C  (7 bytes)".to_string(),
            "D\\u{7f}\\u{9b}E  (0 bytes)".to_string(),
        ]
    );
}

#[test]
fn control_escape_leaves_other_text_alone() {
    let name: Vec<char> = "Ünïcode ☃ name".chars().collect();
    assert_eq!(escape_control_chars(&name), name);
    let tab: Vec<char> = "\t".chars().collect();
    let shown: String = escape_control_chars(&tab).into_iter().collect();
    assert_eq!(shown, "\\u{9}");
}

#[test]
fn default_output_dir_of_a_path_without_file_name() {
    assert_eq!(default_output_dir(""), "");
    assert_eq!(default_output_dir(".."), "..");
    assert_eq!(default_output_dir("images/.hidden"), ".hidden");
}

#[test]
fn symlink_checks_cover_every_prefix_of_a_relative_dir() {
    assert_eq!(symlink_check_prefixes(false, 3), vec![1, 2, 3]);
    assert_eq!(symlink_check_prefixes(false, 0), Vec::<usize>::new());
    assert_eq!(symlink_check_prefixes(true, 4), vec![4]);
}

#[test]
fn non_empty_output_dirs_need_force() {
    assert_eq!(output_dir_action(DirState::Missing, false), DirAction::Create);
    assert_eq!(output_dir_action(DirState::Empty, false), DirAction::Use);
    assert_eq!(output_dir_action(DirState::NonEmpty, false), DirAction::RefuseNonEmpty);
    assert_eq!(output_dir_action(DirState::NonEmpty, true), DirAction::Use);
}

#[test]
fn existing_symlinks_are_never_written_through() {
    let path = vec!["DOCS".to_string(), "A.TXT".to_string()];
    assert!(step_target_check(&path, false).is_ok());
    assert!(matches!(step_target_check(&path, true), Err(Error::PathEscape(n)) if n == "A.TXT"));
}

#[test]
fn default_output_dir_drops_directories_and_extension() {
    assert_eq!(default_output_dir("images/PMagic_8.mds"), "PMagic_8");
    assert_eq!(default_output_dir("a/b.c.d"), "b.c");
    assert_eq!(default_output_dir("noext"), "noext");
}
