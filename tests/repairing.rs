use canopus::issues::{IssueKind, StructuralIssue, ValidationIssue};
use canopus::repairing::{lines_to_repair, patch_flagged_lines, remove_flagged_lines, repair_contents};

#[test]
fn should_repair_code_owners_by_removing_lines() {
    let contents = "# Global ownership\n*.rs    @dotanuki/crabbers\n*.js    not-a-valid-owner\n";
    let repaired = repair_contents(contents, &vec![2], true);
    assert_eq!(repaired, "# Global ownership\n*.rs    @dotanuki/crabbers\n");
}

#[test]
fn should_repair_code_owners_by_commenting_lines() {
    let contents = "*.rs    @dotanuki/crabbers\n*.js    dotanuki/frontend\n";
    let repaired = repair_contents(contents, &vec![1], false);
    assert_eq!(repaired, "*.rs    @dotanuki/crabbers\n# *.js    dotanuki/frontend (preserved by canopus)\n");
}

#[test]
fn repair_example_both_modes() {
    let contents = "*.rs @a\n*.js not-an-owner";
    assert_eq!(repair_contents(contents, &vec![1], false), "*.rs @a\n# *.js not-an-owner (preserved by canopus)\n");
    assert_eq!(repair_contents(contents, &vec![1], true), "*.rs @a\n");
}

#[test]
fn repair_of_nothing_keeps_lines() {
    assert_eq!(repair_contents("a\n\nb", &vec![], false), "a\n\nb\n");
    assert_eq!(repair_contents("", &vec![0], true), "\n");
    assert_eq!(repair_contents("only\n", &vec![0], true), "\n");
}

#[test]
fn flagged_lines_helpers() {
    let lines = vec!["x".to_string(), "y".to_string(), "z".to_string()];
    assert_eq!(patch_flagged_lines(&vec![0, 2], &lines), vec!["# x (preserved by canopus)", "y", "# z (preserved by canopus)"]);
    assert_eq!(remove_flagged_lines(&vec![1], &lines), vec!["x", "z"]);
}

#[test]
fn lines_to_repair_are_distinct() {
    let mk = |line: usize| {
        ValidationIssue::builder()
            .kind(IssueKind::Structure(StructuralIssue::InvalidSyntax))
            .line_number(line)
            .description("x")
            .build()
    };
    assert_eq!(lines_to_repair(&vec![mk(0), mk(0), mk(3), mk(1), mk(3)]), vec![0, 3, 1]);
}
