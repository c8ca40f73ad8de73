use sidestepper::manifest::{
    has_line, header_lines, merge, normalize_entries, select_fresh, starts_comment,
};
use sidestepper::text::{chars_of, render_lines, split_lines, string_of};

const HEADER: &str = "# .sotaignore file generated by sota staircase ReStepper/SideStepper\n# anything here either can't or shouldn't be uploaded to GitHub\n# unless you know what you're doing, don't edit this file! >:(\n";

fn strings(items: &[&str]) -> Vec<String> {
    items.iter().map(|s| s.to_string()).collect()
}

#[test]
fn first_merge_writes_header_and_entries() {
    let files = strings(&["/repo/big.bin", "/repo/data/dump.db"]);
    let out = merge(None, &files, "/repo", '/');
    assert!(out.changed);
    assert_eq!(out.text, format!("{}big.bin\ndata/dump.db\n", HEADER));
}

#[test]
fn merging_twice_changes_nothing() {
    let files = strings(&["/repo/big.bin", "/repo/data/dump.db"]);
    let first = merge(None, &files, "/repo", '/');
    let second = merge(Some(first.text.as_str()), &files, "/repo", '/');
    assert!(!second.changed);
    assert_eq!(second.text, first.text);
}

#[test]
fn listed_file_is_not_listed_again() {
    let existing = format!("{}big.bin\n", HEADER);
    let files = strings(&["/repo/big.bin"]);
    let out = merge(Some(existing.as_str()), &files, "/repo", '/');
    assert!(!out.changed);
    assert_eq!(out.text, existing);
}

#[test]
fn second_file_is_appended_and_prior_lines_stay() {
    let existing = "# my own comment\nbig.bin\n\nstray text, not a path \nbig.bin\n";
    let files = strings(&["/repo/big.bin", "/repo/data/dump.db"]);
    let out = merge(Some(existing), &files, "/repo", '/');
    assert!(out.changed);
    assert_eq!(out.text, format!("{}data/dump.db\n", existing));
}

#[test]
fn header_goes_before_a_manifest_that_starts_without_a_comment() {
    let existing = "old.bin\n";
    let files = strings(&["/repo/new.bin"]);
    let out = merge(Some(existing), &files, "/repo", '/');
    assert!(out.changed);
    assert_eq!(out.text, format!("{}old.bin\nnew.bin\n", HEADER));
    let again = merge(Some(out.text.as_str()), &strings(&["/repo/third.bin"]), "/repo", '/');
    assert!(again.changed);
    assert_eq!(again.text, format!("{}old.bin\nnew.bin\nthird.bin\n", HEADER));
}

#[test]
fn no_large_files_means_no_change() {
    let out = merge(None, &Vec::new(), "/repo", '/');
    assert!(!out.changed);
    assert_eq!(out.text, "");
    let kept = merge(Some("a\r\nb"), &Vec::new(), "/repo", '/');
    assert!(!kept.changed);
    assert_eq!(kept.text, "a\r\nb");
}

#[test]
fn file_outside_the_root_is_skipped() {
    let files = strings(&["/elsewhere/big.bin", "/repository/big.bin"]);
    let out = merge(None, &files, "/repo", '/');
    assert!(!out.changed);
    let mixed = strings(&["/elsewhere/a.bin", "/repo/b.bin"]);
    let out = merge(None, &mixed, "/repo", '/');
    assert_eq!(out.text, format!("{}b.bin\n", HEADER));
}

#[test]
fn backslash_host_records_forward_slashes() {
    let files = strings(&["C:\\repo\\sub\\dir\\big.bin"]);
    let out = merge(None, &files, "C:\\repo", '\\');
    assert!(out.changed);
    assert_eq!(out.text, format!("{}sub/dir/big.bin\n", HEADER));
    assert_eq!(sidestepper::paths::to_posix("sub\\dir\\big.bin", '\\'), "sub/dir/big.bin");
    let entries = normalize_entries(&strings(&["\\\\host\\share\\sub\\big.bin"]), "\\\\host\\share\\", '\\');
    assert_eq!(entries, strings(&["sub/big.bin"]));
}

#[test]
fn slash_host_keeps_backslashes_in_names() {
    let entries = normalize_entries(&strings(&["/repo/odd\\name.bin"]), "/repo/", '/');
    assert_eq!(entries, strings(&["odd\\name.bin"]));
}

#[test]
fn the_same_new_file_given_twice_is_appended_twice() {
    let files = strings(&["/repo/a.bin", "/repo/a.bin"]);
    let out = merge(Some("# c\n"), &files, "/repo", '/');
    assert_eq!(out.text, "# c\na.bin\na.bin\n");
}

#[test]
fn crlf_manifest_lines_are_compared_without_the_line_ending() {
    let out = merge(Some("# c\r\nbig.bin\r\n"), &strings(&["/repo/big.bin"]), "/repo", '/');
    assert!(!out.changed);
    let out = merge(Some("# c\r\nbig.bin\r\n"), &strings(&["/repo/new.bin"]), "/repo", '/');
    assert_eq!(out.text, "# c\nbig.bin\nnew.bin\n");
}

#[test]
fn entry_with_a_line_feed_is_not_found_again() {
    let files = strings(&["/repo/a\nb"]);
    let first = merge(Some("# c\n"), &files, "/repo", '/');
    assert_eq!(first.text, "# c\na\nb\n");
    let second = merge(Some(first.text.as_str()), &files, "/repo", '/');
    assert!(second.changed);
}

#[test]
fn lines_are_split_as_text_lines() {
    assert_eq!(split_lines(""), Vec::<String>::new());
    assert_eq!(split_lines("\n"), strings(&[""]));
    assert_eq!(split_lines("a"), strings(&["a"]));
    assert_eq!(split_lines("a\n"), strings(&["a"]));
    assert_eq!(split_lines("a\n\nb"), strings(&["a", "", "b"]));
    assert_eq!(split_lines("a\r\nb\r"), strings(&["a", "b\r"]));
    assert_eq!(split_lines("a\r\r\n"), strings(&["a\r"]));
    for text in ["", "\n", "a", "x\r\ny\n\nz", "\r\n\r\n", "a\rb\n", "é\n✓"] {
        let expected: Vec<String> = text.lines().map(String::from).collect();
        assert_eq!(split_lines(text), expected);
    }
}

#[test]
fn lines_are_rendered_with_one_trailing_line_feed() {
    assert_eq!(render_lines(&strings(&["a", "b"])), "a\nb\n");
    assert_eq!(render_lines(&strings(&["a"])), "a\n");
    assert_eq!(render_lines(&strings(&["", ""])), "\n\n");
    assert_eq!(render_lines(&Vec::new()), "\n");
    let lines = strings(&["# c", "x/y", "", "z"]);
    assert_eq!(split_lines(render_lines(&lines).as_str()), lines);
}

#[test]
fn characters_round_trip() {
    assert_eq!(chars_of("aé✓"), vec!['a', 'é', '✓']);
    assert_eq!(string_of(&vec!['a', 'é', '✓']), "aé✓");
    assert_eq!(string_of(&Vec::new()), "");
}

#[test]
fn comment_marker_is_the_first_character() {
    assert!(starts_comment("#"));
    assert!(starts_comment("# x"));
    assert!(!starts_comment(""));
    assert!(!starts_comment(" #"));
    assert!(starts_comment(header_lines()[0].as_str()));
    assert_eq!(header_lines().len(), 3);
}

#[test]
fn fresh_entries_are_those_no_line_equals() {
    let old = strings(&["a", "b "]);
    assert!(has_line(&old, &"a".to_string()));
    assert!(!has_line(&old, &"b".to_string()));
    assert_eq!(select_fresh(&old, &strings(&["b", "a", "c", "b"])), strings(&["b", "c", "b"]));
}
