use canopus::codeowners::{CodeOwners, CodeOwnersEntry, OwnershipRecord};
use canopus::handles::{EmailHandle, GithubIdentityHandle, GithubTeamHandle, Owner};
use canopus::issues::{
    CodeownersParsingOutcome, IssueKind, StructuralIssue, ValidationIssue, ValidationIssueBuilder,
};
use canopus::project::{codeowners_candidates, CodeOwnersContext, LocationError};
use canopus::text::{split_lines, split_tokens, chars_of, decimal_string};

fn invalid_syntax(line: usize, message: &str) -> ValidationIssue {
    ValidationIssue::builder()
        .kind(IssueKind::Structure(StructuralIssue::InvalidSyntax))
        .line_number(line)
        .description(message)
        .build()
}

fn owner(token: &str) -> Owner {
    Owner::parse(token).unwrap()
}

#[test]
fn should_parse_trivial_codeowners() {
    let codeowners = CodeOwners::try_from("*.rs    @dotanuki-labs/rustaceans\n").unwrap();
    let entry = CodeOwnersEntry::parse(0, "*.rs @dotanuki-labs/rustaceans").unwrap();
    let expected = CodeOwners::new(vec![entry]);
    assert_eq!(codeowners, expected);
    assert_eq!(codeowners.occurrences(&owner("@dotanuki-labs/rustaceans")), vec![0]);
    let record = OwnershipRecord::new(0, "*.rs".to_string());
    assert_eq!(record.glob, "*.rs");
}

#[test]
fn should_parse_comments_and_blank_lines() {
    let content = "# Rules for dotanuki labs\n\n*.rs    @dotanuki-labs/devs\n";
    let codeowners = CodeOwners::try_from(content).unwrap();
    let entries = vec![
        CodeOwnersEntry::parse(0, "# Rules for dotanuki labs").unwrap(),
        CodeOwnersEntry::BlankLine,
        CodeOwnersEntry::parse(2, "*.rs @dotanuki-labs/devs").unwrap(),
    ];
    assert_eq!(codeowners, CodeOwners::new(entries));
    assert_eq!(
        codeowners.entries()[0],
        CodeOwnersEntry::Comment("Rules for dotanuki labs".to_string())
    );
    assert_eq!(codeowners.occurrences(&owner("@dotanuki-labs/devs")), vec![2]);
}

#[test]
fn should_parse_commented_rule() {
    let content = "*.rs    @dotanuki-labs/crabbers   # Enforce global control\n";
    let codeowners = CodeOwners::try_from(content).unwrap();
    let entry =
        CodeOwnersEntry::parse(0, "*.rs @dotanuki-labs/crabbers # Enforce global control").unwrap();
    assert_eq!(codeowners, CodeOwners::new(vec![entry]));
    match &codeowners.entries()[0] {
        CodeOwnersEntry::Rule(rule) => {
            assert_eq!(rule.inline_comment, Some("Enforce global control".to_string()));
            assert_eq!(rule.glob, "*.rs");
        },
        other => panic!("expected a rule, got {:?}", other),
    }
}

#[test]
fn should_parse_multiple_owners() {
    let content = "*.rs    @ubiratansoares  rust@dotanuki.dev\n";
    let codeowners = CodeOwners::try_from(content).unwrap();
    let entry = CodeOwnersEntry::parse(0, "*.rs @ubiratansoares rust@dotanuki.dev").unwrap();
    assert_eq!(codeowners, CodeOwners::new(vec![entry]));
    assert_eq!(codeowners.occurrences(&owner("@ubiratansoares")), vec![0]);
    assert_eq!(codeowners.occurrences(&owner("rust@dotanuki.dev")), vec![0]);
    assert_eq!(
        codeowners.unique_owners(),
        &vec![owner("@ubiratansoares"), owner("rust@dotanuki.dev")]
    );
}

#[test]
fn ownership_index_lists_each_mention() {
    let content = "*.rs @ubiratansoares rust@dotanuki.dev\n# note\ndocs/ @ubiratansoares\n";
    let codeowners = CodeOwners::try_from(content).unwrap();
    assert_eq!(codeowners.occurrences(&owner("@ubiratansoares")), vec![0, 2]);
    assert_eq!(codeowners.occurrences(&owner("rust@dotanuki.dev")), vec![0]);
    assert_eq!(codeowners.occurrences(&owner("@someone-else")), Vec::<usize>::new());
}

#[test]
fn should_accept_empty_comment() {
    let content = "#\n*.rs    @org/rustaceans   ufs@dotanuki.dev\n";
    let codeowners = CodeOwners::try_from(content).unwrap();
    assert_eq!(codeowners.entries()[0], CodeOwnersEntry::Comment(String::new()));
}

#[test]
fn should_fail_with_unparsable_owner() {
    let outcome = CodeOwners::try_from("*.rs    ufs.dotanuki\n").unwrap_err();
    assert_eq!(outcome, CodeownersParsingOutcome(vec![invalid_syntax(0, "cannot parse owner")]));
}

#[test]
fn should_fail_with_invalid_github_handle() {
    let outcome = CodeOwners::try_from("*.rs    @dotanuki--labs\n").unwrap_err();
    assert_eq!(outcome, CodeownersParsingOutcome(vec![invalid_syntax(0, "cannot parse owner")]));
}

#[test]
fn glob_and_owner_errors_are_both_reported_in_order() {
    let issues = CodeOwnersEntry::parse(3, "[z-a]*.rs    org/crabbers").unwrap_err();
    assert_eq!(
        issues,
        vec![invalid_syntax(3, "invalid glob pattern"), invalid_syntax(3, "cannot parse owner")]
    );
}

#[test]
fn errors_of_all_lines_are_collected() {
    let content = "*.rs nobody\n*.md @org/docs\n[z-a] @someone\n";
    let outcome = CodeOwners::try_from(content).unwrap_err();
    assert_eq!(
        outcome.0,
        vec![invalid_syntax(0, "cannot parse owner"), invalid_syntax(2, "invalid glob pattern")]
    );
}

#[test]
fn rule_without_owners_is_rejected() {
    let issues = CodeOwnersEntry::parse(1, "*.rs").unwrap_err();
    assert_eq!(issues, vec![invalid_syntax(1, "expected non-empty owners list")]);
}

#[test]
fn empty_inline_comment_is_rejected() {
    let issues = CodeOwnersEntry::parse(4, "*.rs @org/team #").unwrap_err();
    assert_eq!(issues, vec![invalid_syntax(4, "expected non-empty comment")]);
}

#[test]
fn blank_and_whitespace_lines_are_blank() {
    assert_eq!(CodeOwnersEntry::parse(0, "").unwrap(), CodeOwnersEntry::BlankLine);
    assert_eq!(CodeOwnersEntry::parse(0, "   \t ").unwrap(), CodeOwnersEntry::BlankLine);
    let codeowners = CodeOwners::try_from("").unwrap();
    assert!(codeowners.entries().is_empty());
}

#[test]
fn comment_text_drops_hashes_and_spaces() {
    assert_eq!(
        CodeOwnersEntry::parse(0, "## Global  rules ##  ").unwrap(),
        CodeOwnersEntry::Comment("Global  rules".to_string())
    );
}

#[test]
fn reparsing_rendered_entries_gives_the_same_document() {
    let content = "# Rules\n\n*.rs @org/rust dev@example.com # core team\ndocs/** @writer\n";
    let first = CodeOwners::try_from(content).unwrap();
    let rendered: String = first
        .entries()
        .iter()
        .map(|e| format!("{}\n", e.render()))
        .collect();
    let second = CodeOwners::try_from(rendered.as_str()).unwrap();
    assert_eq!(first, second);
}

#[test]
fn rendered_document_reads_back() {
    let content = "# owners\n*.rs   @org/rust  # main code\n\n*.md me@example.com\n";
    let first = CodeOwners::try_from(content).unwrap();
    let text = first.render();
    assert_eq!(text, "# owners\n*.rs @org/rust # main code\n\n*.md me@example.com\n");
    assert_eq!(CodeOwners::try_from(text.as_str()).unwrap(), first);
}

#[test]
fn indented_hash_pattern_is_a_rule() {
    let first = CodeOwners::try_from("  #abc @user\n").unwrap();
    assert!(matches!(first.entries()[0], CodeOwnersEntry::Rule(_)));
    let second = CodeOwners::try_from(first.render().as_str()).unwrap();
    assert!(matches!(second.entries()[0], CodeOwnersEntry::Comment(_)));
}

#[test]
fn owners_are_read_by_kind() {
    assert_eq!(
        owner("@ubiratansoares"),
        Owner::GithubUser(GithubIdentityHandle::new("ubiratansoares".to_string()))
    );
    assert_eq!(
        owner("@dotanuki-labs/rustaceans"),
        Owner::GithubTeam(GithubTeamHandle::new(
            GithubIdentityHandle::new("dotanuki-labs".to_string()),
            "rustaceans".to_string()
        ))
    );
    assert_eq!(owner("@@double"), Owner::GithubUser(GithubIdentityHandle::new("double".to_string())));
    assert!(matches!(owner("rust@dotanuki.dev"), Owner::EmailAddress(_)));
    assert_eq!(EmailHandle::parse("rust@dotanuki.dev").unwrap().inner(), "rust@dotanuki.dev");
    assert!(Owner::parse("org/team").is_none());
    assert!(Owner::parse("@org/team/extra").is_none());
    assert!(Owner::parse("@-leading").is_none());
    assert!(Owner::parse("@trailing-").is_none());
    assert!(Owner::parse("not-an-email@").is_none());
    assert!(EmailHandle::parse("plainaddress").is_none());
}

#[test]
fn identity_handles_hold_at_most_39_characters() {
    let longest = "a".repeat(39);
    assert!(GithubIdentityHandle::parse(&longest).is_some());
    assert!(GithubIdentityHandle::parse(&"a".repeat(40)).is_none());
    assert!(GithubIdentityHandle::parse("").is_none());
    assert!(GithubIdentityHandle::parse("a-b-c").is_some());
    assert!(GithubTeamHandle::parse(&format!("org/{}", "t".repeat(255))).is_some());
    assert!(GithubTeamHandle::parse(&format!("org/{}", "t".repeat(256))).is_none());
}

#[test]
fn invalid_glob_is_reported() {
    let issues = CodeOwnersEntry::parse(0, "[z-a]*.rs @org/crabbers").unwrap_err();
    assert_eq!(issues, vec![invalid_syntax(0, "invalid glob pattern")]);
}

#[test]
fn lines_and_tokens_split_like_std() {
    let lines: Vec<String> = split_lines("a\r\nb\n\nc");
    assert_eq!(lines, vec!["a", "b", "", "c"]);
    assert_eq!(split_lines("x\n"), vec!["x"]);
    let tokens = split_tokens(&chars_of("  one\ttwo \u{3000}three "));
    assert_eq!(tokens, vec!["one", "two", "three"]);
    assert_eq!(decimal_string(0), "0");
    assert_eq!(decimal_string(1234), "1234");
}

#[test]
fn builder_sets_every_part() {
    let b: ValidationIssueBuilder = ValidationIssue::builder();
    let issue = b
        .kind(IssueKind::Structure(StructuralIssue::DanglingGlobPattern))
        .line_number(7)
        .message("x".to_string())
        .build();
    assert_eq!(issue.line, 7);
    assert_eq!(issue.context, "x");
}

#[test]
fn should_report_codeowners_not_found() {
    let err = CodeOwnersContext::check_conventional_codeowners_location(&vec![false, false, false]).unwrap_err();
    assert!(err.message().contains("no CODEOWNERS definition found"));
    assert_eq!(err, LocationError::NotFound);
}

#[test]
fn codeowners_should_detect_multiple_codeowners() {
    let err = CodeOwnersContext::check_conventional_codeowners_location(&vec![true, true, false]).unwrap_err();
    assert!(err.message().contains("multiple CODEOWNERS definitions"));
}

#[test]
fn single_codeowners_location_is_picked() {
    assert_eq!(CodeOwnersContext::check_conventional_codeowners_location(&vec![false, true, false]), Ok(1));
    assert_eq!(codeowners_candidates()[1], "CODEOWNERS");
}

#[test]
fn should_detect_no_codeowners() {
    let err = CodeOwnersContext::check_conventional_codeowners_location(&vec![false, false, false]).unwrap_err();
    assert!(err.message().contains("no CODEOWNERS definition found in the project"));
}

#[test]
fn should_detect_owner_syntax_issue() {
    let outcome = CodeOwners::try_from("*.rs    org/crabbers\n").unwrap_err();
    assert!(outcome.0.iter().any(|issue| issue.context.contains("cannot parse owner")));
}
