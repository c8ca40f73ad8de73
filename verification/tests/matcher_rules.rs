use sidestepper::matcher::{rule_lines, without_bom, RuleLayer, Status};

fn layer(base: &str, text: &str) -> RuleLayer {
    RuleLayer::from_text(base, text)
}

#[test]
fn path_without_rules_is_kept() {
    let layers: Vec<RuleLayer> = Vec::new();
    assert_eq!(sidestepper::matcher::matches("/repo/src/main.rs", false, &layers, "/repo", '/'), Status::Included);
}

#[test]
fn hidden_files_are_kept_by_default() {
    let layers = vec![layer("/repo", "target/\n")];
    assert_eq!(sidestepper::matcher::matches("/repo/.env", false, &layers, "/repo", '/'), Status::Included);
    assert_eq!(sidestepper::matcher::matches("/repo/.config", true, &layers, "/repo", '/'), Status::Included);
}

#[test]
fn metadata_directory_is_always_left_out() {
    let layers = vec![layer("/repo", "!.git\n!.git/**\n")];
    assert_eq!(sidestepper::matcher::matches("/repo/.git", true, &layers, "/repo", '/'), Status::Excluded);
    assert_eq!(sidestepper::matcher::matches("/repo/.git/objects/pack/p.pack", false, &layers, "/repo", '/'), Status::Excluded);
    assert_eq!(sidestepper::matcher::matches("/repo/.gitignore", false, &layers, "/repo", '/'), Status::Included);
    assert_eq!(sidestepper::matcher::matches("/repo/.github/x.yml", false, &layers, "/repo", '/'), Status::Included);
}

#[test]
fn simple_pattern_leaves_out() {
    let layers = vec![layer("/repo", "*.bin\n")];
    assert_eq!(sidestepper::matcher::matches("/repo/a.bin", false, &layers, "/repo", '/'), Status::Excluded);
    assert_eq!(sidestepper::matcher::matches("/repo/deep/er/a.bin", false, &layers, "/repo", '/'), Status::Excluded);
    assert_eq!(sidestepper::matcher::matches("/repo/a.txt", false, &layers, "/repo", '/'), Status::Included);
}

#[test]
fn anchored_pattern_matches_only_at_the_rule_files_directory() {
    let layers = vec![layer("/repo", "/build\n")];
    assert_eq!(sidestepper::matcher::matches("/repo/build", true, &layers, "/repo", '/'), Status::Excluded);
    assert_eq!(sidestepper::matcher::matches("/repo/sub/build", true, &layers, "/repo", '/'), Status::Included);
}

#[test]
fn trailing_slash_matches_directories_only() {
    let layers = vec![layer("/repo", "cache/\n")];
    assert_eq!(sidestepper::matcher::matches("/repo/cache", true, &layers, "/repo", '/'), Status::Excluded);
    assert_eq!(sidestepper::matcher::matches("/repo/cache", false, &layers, "/repo", '/'), Status::Included);
}

#[test]
fn wildcards_and_classes() {
    let layers = vec![layer("/repo", "data/**/*.db\nfile?.txt\nlog[0-9].txt\n")];
    assert_eq!(sidestepper::matcher::matches("/repo/data/a/b/x.db", false, &layers, "/repo", '/'), Status::Excluded);
    assert_eq!(sidestepper::matcher::matches("/repo/file1.txt", false, &layers, "/repo", '/'), Status::Excluded);
    assert_eq!(sidestepper::matcher::matches("/repo/file12.txt", false, &layers, "/repo", '/'), Status::Included);
    assert_eq!(sidestepper::matcher::matches("/repo/log7.txt", false, &layers, "/repo", '/'), Status::Excluded);
    assert_eq!(sidestepper::matcher::matches("/repo/logx.txt", false, &layers, "/repo", '/'), Status::Included);
}

#[test]
fn later_line_overrides_earlier_line() {
    let layers = vec![layer("/repo", "*.bin\n!keep.bin\n")];
    assert_eq!(sidestepper::matcher::matches("/repo/keep.bin", false, &layers, "/repo", '/'), Status::Included);
    assert_eq!(sidestepper::matcher::matches("/repo/drop.bin", false, &layers, "/repo", '/'), Status::Excluded);
    let reversed = vec![layer("/repo", "!keep.bin\n*.bin\n")];
    assert_eq!(sidestepper::matcher::matches("/repo/keep.bin", false, &reversed, "/repo", '/'), Status::Excluded);
}

#[test]
fn nested_negation_readmits_and_its_removal_restores_exclusion() {
    let with_negation = vec![layer("/repo", "*.bin\n"), layer("/repo/sub", "!keep.bin\n")];
    assert_eq!(sidestepper::matcher::matches("/repo/sub/keep.bin", false, &with_negation, "/repo", '/'), Status::Included);
    assert_eq!(sidestepper::matcher::matches("/repo/sub/other.bin", false, &with_negation, "/repo", '/'), Status::Excluded);
    assert_eq!(sidestepper::matcher::matches("/repo/keep.bin", false, &with_negation, "/repo", '/'), Status::Excluded);
    let without = vec![layer("/repo", "*.bin\n"), layer("/repo/sub", "")];
    assert_eq!(sidestepper::matcher::matches("/repo/sub/keep.bin", false, &without, "/repo", '/'), Status::Excluded);
}

#[test]
fn nearer_layer_can_exclude_what_a_farther_layer_readmits() {
    let layers = vec![layer("/repo", "!notes.txt\n"), layer("/repo/sub", "notes.txt\n")];
    assert_eq!(sidestepper::matcher::matches("/repo/sub/notes.txt", false, &layers, "/repo", '/'), Status::Excluded);
    assert_eq!(sidestepper::matcher::matches("/repo/notes.txt", false, &layers, "/repo", '/'), Status::Included);
}

#[test]
fn layer_does_not_reach_outside_its_directory() {
    let layers = vec![layer("/repo/sub", "*.txt\n")];
    assert_eq!(sidestepper::matcher::matches("/repo/a.txt", false, &layers, "/repo", '/'), Status::Included);
    assert_eq!(sidestepper::matcher::matches("/repo/subway/a.txt", false, &layers, "/repo", '/'), Status::Included);
    assert_eq!(sidestepper::matcher::matches("/repo/sub/a.txt", false, &layers, "/repo", '/'), Status::Excluded);
}

#[test]
fn comments_blank_lines_and_escapes() {
    let layers = vec![layer("/repo", "# a comment\n\n\\#literal\n\\!bang\n")];
    assert_eq!(sidestepper::matcher::matches("/repo/#literal", false, &layers, "/repo", '/'), Status::Excluded);
    assert_eq!(sidestepper::matcher::matches("/repo/!bang", false, &layers, "/repo", '/'), Status::Excluded);
    assert_eq!(sidestepper::matcher::matches("/repo/a comment", false, &layers, "/repo", '/'), Status::Included);
}

#[test]
fn backslash_host_paths_are_matched_in_posix_form() {
    let layers = vec![layer("C:\\repo", "out/*.o\n")];
    assert_eq!(sidestepper::matcher::matches("C:\\repo\\out\\a.o", false, &layers, "C:\\repo", '\\'), Status::Excluded);
    assert_eq!(sidestepper::matcher::matches("C:\\repo\\src\\a.o", false, &layers, "C:\\repo", '\\'), Status::Included);
    assert_eq!(sidestepper::matcher::matches("C:\\repo\\.git\\config", false, &layers, "C:\\repo", '\\'), Status::Excluded);
}

#[test]
fn rule_file_text_is_split_and_loses_its_byte_order_mark() {
    let lines = rule_lines("\u{feff}*.bin\r\n!keep.bin\n");
    assert_eq!(lines, vec!["*.bin".to_string(), "!keep.bin".to_string()]);
    assert_eq!(without_bom("\u{feff}\u{feff}x\u{feff}"), "x\u{feff}".to_string());
    assert_eq!(without_bom("plain"), "plain".to_string());
    let layers = vec![layer("/repo", "\u{feff}*.bin\n")];
    assert_eq!(sidestepper::matcher::matches("/repo/a.bin", false, &layers, "/repo", '/'), Status::Excluded);
}

#[test]
fn invalid_rule_line_is_left_out_and_the_rest_still_apply() {
    let layers = vec![layer("/repo", "a[\\\n*.tmp\n")];
    assert_eq!(sidestepper::matcher::matches("/repo/x.tmp", false, &layers, "/repo", '/'), Status::Excluded);
}
