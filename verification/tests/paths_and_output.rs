use sidestepper::config::{Behaviour, Flags};
use sidestepper::output::{has_changed, plan_output, plumbing_lines, Output};
use sidestepper::paths::{in_metadata, is_sep, is_under, join_child, relative_path, to_posix};

fn strings(items: &[&str]) -> Vec<String> {
    items.iter().map(|s| s.to_string()).collect()
}

fn behaviour(root: &str, plumbing: bool, sep: char) -> Behaviour {
    Behaviour::new(root, None, Flags { search_here: false, plumbing }, sep)
}

#[test]
fn separators_of_each_host() {
    assert!(is_sep('/', '/'));
    assert!(!is_sep('\\', '/'));
    assert!(is_sep('/', '\\'));
    assert!(is_sep('\\', '\\'));
    assert!(!is_sep('a', '/'));
}

#[test]
fn relative_paths() {
    assert_eq!(relative_path("/repo/a/b.txt", "/repo", '/'), Some("a/b.txt".to_string()));
    assert_eq!(relative_path("/repo/a/b.txt", "/repo/", '/'), Some("a/b.txt".to_string()));
    assert_eq!(relative_path("/repo//a//b.txt", "/repo///", '/'), Some("a//b.txt".to_string()));
    assert_eq!(relative_path("/repo", "/repo", '/'), Some(String::new()));
    assert_eq!(relative_path("/repo/", "/repo", '/'), Some(String::new()));
    assert_eq!(relative_path("/repository/a", "/repo", '/'), None);
    assert_eq!(relative_path("/rep", "/repo", '/'), None);
    assert_eq!(relative_path("/other/a", "/repo", '/'), None);
    assert_eq!(relative_path("/a/b", "/", '/'), Some("a/b".to_string()));
    assert_eq!(relative_path("a/b", "/", '/'), None);
    assert_eq!(relative_path("C:\\r\\a\\b", "C:\\r", '\\'), Some("a\\b".to_string()));
    assert_eq!(relative_path("C:\\r/a\\b", "C:\\r\\", '\\'), Some("a\\b".to_string()));
    assert_eq!(relative_path("/r\\a", "/r", '/'), None);
    assert_eq!(relative_path("/répo/ü", "/répo", '/'), Some("ü".to_string()));
}

#[test]
fn lying_under_a_directory() {
    assert!(is_under("/repo/a", "/repo", '/'));
    assert!(is_under("/repo", "/repo", '/'));
    assert!(is_under("/repo", "/repo//", '/'));
    assert!(!is_under("/repo2", "/repo", '/'));
    assert!(!is_under("/", "/repo", '/'));
}

#[test]
fn metadata_directory_is_recognised() {
    assert!(in_metadata("/repo/.git", "/repo", '/'));
    assert!(in_metadata("/repo/.git/", "/repo", '/'));
    assert!(in_metadata("/repo/.git/HEAD", "/repo", '/'));
    assert!(in_metadata("/repo//.git//objects/ab/cd", "/repo/", '/'));
    assert!(!in_metadata("/repo/.gitignore", "/repo", '/'));
    assert!(!in_metadata("/repo/.github", "/repo", '/'));
    assert!(!in_metadata("/repo/sub/.git", "/repo", '/'));
    assert!(!in_metadata("/repo", "/repo", '/'));
    assert!(!in_metadata("/else/.git", "/repo", '/'));
    assert!(in_metadata("C:\\r\\.git\\config", "C:\\r", '\\'));
}

#[test]
fn posix_form_replaces_the_host_separator_only() {
    assert_eq!(to_posix("sub\\dir\\big.bin", '\\'), "sub/dir/big.bin");
    assert_eq!(to_posix("sub/dir\\big.bin", '/'), "sub/dir\\big.bin");
    assert_eq!(to_posix("", '\\'), "");
    assert_eq!(to_posix("a:b", ':'), "a/b");
}

#[test]
fn child_paths() {
    assert_eq!(join_child("/repo", "a", '/'), "/repo/a");
    assert_eq!(join_child("/repo/", "a", '/'), "/repo/a");
    assert_eq!(join_child("/", "a", '/'), "/a");
    assert_eq!(join_child("", "a", '/'), "a");
    assert_eq!(join_child("C:\\r", "a", '\\'), "C:\\r\\a");
    assert_eq!(join_child("C:/r/", "a", '\\'), "C:/r/a");
}

#[test]
fn plumbing_mode_emits_one_native_line_per_file_and_no_manifest() {
    let b = behaviour("/repo", true, '/');
    let files = strings(&["/repo/big.bin", "/repo/data/dump.db"]);
    for existing in [None, Some(""), Some("big.bin\ndata/dump.db\n")] {
        match plan_output(&b, existing, &files) {
            Output::Lines(lines) => assert_eq!(lines, strings(&["big.bin", "data/dump.db"])),
            _ => panic!("plumbing mode must emit lines"),
        }
    }
    let b = behaviour("C:\\repo", true, '\\');
    let out = plan_output(&b, None, &strings(&["C:\\repo\\sub\\big.bin"]));
    assert!(has_changed(&out));
    match out {
        Output::Lines(lines) => assert_eq!(lines, strings(&["sub\\big.bin"])),
        _ => panic!("plumbing mode must emit lines"),
    }
}

#[test]
fn plumbing_mode_with_nothing_to_emit_reports_no_change() {
    let b = behaviour("/repo", true, '/');
    let out = plan_output(&b, None, &Vec::new());
    assert!(!has_changed(&out));
    assert!(matches!(out, Output::Nothing));
    let out = plan_output(&b, None, &strings(&["/elsewhere/big.bin"]));
    assert!(matches!(out, Output::Nothing));
    assert_eq!(plumbing_lines(&strings(&["/x/a", "/repo/b", "/repo/b"]), "/repo", '/'), strings(&["b", "b"]));
}

#[test]
fn manifest_mode_writes_only_on_change() {
    let b = behaviour("/repo", false, '/');
    let files = strings(&["/repo/big.bin"]);
    let first = plan_output(&b, None, &files);
    assert!(has_changed(&first));
    let text = match first {
        Output::Manifest(text) => text,
        _ => panic!("manifest mode must write the manifest"),
    };
    assert!(text.ends_with("\nbig.bin\n"));
    assert!(text.starts_with("# .sotaignore file generated by"));
    let second = plan_output(&b, Some(text.as_str()), &files);
    assert!(!has_changed(&second));
    assert!(matches!(second, Output::Nothing));
}
