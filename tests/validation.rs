use canopus::codeowners::CodeOwners;
use canopus::config::{CanopusConfig, GeneralConfig, OwnershipConfig};
use canopus::github::FakeGithubState;
use canopus::handles::{GithubIdentityHandle, GithubTeamHandle};
use canopus::issues::{
    ConfigurationIssue, ConsistencyIssue, IssueKind, StructuralIssue, ValidationIssue, ValidationOutcome,
    SENTINEL_LINE,
};
use canopus::project::PathWalker;
use canopus::validation::{consistency_requests, sort_issues, validate_codeowners};

fn config(organization: &str) -> CanopusConfig {
    CanopusConfig {
        general: GeneralConfig { github_organization: organization.to_string(), ..Default::default() },
        ..Default::default()
    }
}

fn offline_config(ownership: OwnershipConfig) -> CanopusConfig {
    CanopusConfig {
        general: GeneralConfig {
            github_organization: "dotanuki-labs".to_string(),
            offline_checks_only: Some(true),
        },
        ownership,
    }
}

fn paths_of(walker: &PathWalker) -> Vec<String> {
    match walker {
        PathWalker::FakePaths(paths) => paths.clone(),
        PathWalker::GitAware => panic!("the project's files must not be walked here"),
    }
}

/// Parses, asks the fixed GitHub state about the requested owners, and validates.
fn validate(contents: &str, paths: Vec<&str>, config: &CanopusConfig, state: &FakeGithubState) -> ValidationOutcome {
    let walker = PathWalker::with_paths(paths);
    match CodeOwners::try_from(contents) {
        Err(syntax) => ValidationOutcome::from_issues(syntax.0),
        Ok(document) => {
            let requests = consistency_requests(&document, config);
            let results = state.check_owners(&requests);
            validate_codeowners(&document, &paths_of(&walker), config, &results)
        },
    }
}

/// Validates with a GitHub that must never be asked.
fn validate_offline(contents: &str, paths: Vec<&str>, config: &CanopusConfig) -> ValidationOutcome {
    let document = CodeOwners::try_from(contents).unwrap();
    let requests = consistency_requests(&document, config);
    let results: Vec<Result<(), ConsistencyIssue>> = requests
        .iter()
        .map(|_| -> Result<(), ConsistencyIssue> { panic!("GitHub must not be asked in offline mode") })
        .collect();
    validate_codeowners(&document, &paths.iter().map(|p| p.to_string()).collect(), config, &results)
}

fn everyone_exists() -> FakeGithubState {
    FakeGithubState::builder()
        .add_known_user("@ubiratansoares")
        .add_known_user("@dotanukibot")
        .add_known_team("@org/rustaceans")
        .add_known_team("@org/crabbers")
        .add_known_team("@org/devs")
        .add_known_team("@org/infra")
        .add_known_team("@dotanuki-labs/rustaceans")
        .add_known_team("@dotanuki-labs/infra")
        .build()
}

fn issue(kind: IssueKind, line: usize, message: &str) -> ValidationIssue {
    ValidationIssue::builder().kind(kind).line_number(line).description(message).build()
}

fn structural(kind: StructuralIssue, line: usize, message: &str) -> ValidationIssue {
    issue(IssueKind::Structure(kind), line, message)
}

#[test]
fn validation_should_find_no_syntax_issues() {
    let outcome = validate("*.rs    @org/rustaceans\n", vec!["main.rs"], &config("dotanuki-labs"), &everyone_exists());
    assert_eq!(outcome, ValidationOutcome::NoIssues);
}

#[test]
fn validation_should_detect_owners_syntax_issue() {
    let outcome = validate("*.rs    org/rustaceans\n", vec![], &config("dotanuki-labs"), &everyone_exists());
    let expected = structural(StructuralIssue::InvalidSyntax, 0, "cannot parse owner");
    assert_eq!(outcome, ValidationOutcome::IssuesDetected(vec![expected]));
}

#[test]
fn validation_should_detect_glob_syntax_issue() {
    let outcome = validate("[z-a]*.rs    @org/crabbers\n", vec![], &config("dotanuki-labs"), &everyone_exists());
    let expected = structural(StructuralIssue::InvalidSyntax, 0, "invalid glob pattern");
    assert_eq!(outcome, ValidationOutcome::IssuesDetected(vec![expected]));
}

#[test]
fn validation_should_report_multiple_issues_for_the_same_entry() {
    let outcome = validate("[z-a]*.rs    org/crabbers\n", vec![], &config("dotanuki-labs"), &everyone_exists());
    let expected = vec![
        structural(StructuralIssue::InvalidSyntax, 0, "invalid glob pattern"),
        structural(StructuralIssue::InvalidSyntax, 0, "cannot parse owner"),
    ];
    assert_eq!(outcome, ValidationOutcome::IssuesDetected(expected));
}

#[test]
fn validation_should_detect_dangling_globs() {
    let contents = "*.rs                @dotanuki-labs/rustaceans\n.automation/**      @dotanuki-labs/infra\n";
    let outcome = validate(contents, vec!["validation.rs"], &config("dotanuki-labs"), &everyone_exists());
    let expected = structural(StructuralIssue::DanglingGlobPattern, 1, ".automation/** does not match any project path");
    assert_eq!(outcome, ValidationOutcome::IssuesDetected(vec![expected]));
}

#[test]
fn validation_should_detect_strictly_duplicated_ownership_rules() {
    let contents = "*.rs            @org/rustaceans\ndocs/**/*.md    @org/devs\n*.rs            @org/crabbers @ubiratansoares\n";
    let paths = vec!["validation.rs", "docs/README.md", "docs/README.md"];
    let outcome = validate(contents, paths, &config("dotanuki-labs"), &everyone_exists());
    let expected = structural(StructuralIssue::DuplicateOwnership, 0, "*.rs defined multiple times : lines [0, 2]");
    assert_eq!(outcome, ValidationOutcome::IssuesDetected(vec![expected]));
}

#[test]
fn validation_should_detect_multiple_non_syntax_issues() {
    let contents = "*.rs            @org/rustaceans\ndocs/**/*.md    @org/devs\n*.rs            @org/crabbers @ubiratansoares\n";
    let paths = vec!["validation.rs", ".github", ".github/CODEOWNERS"];
    let outcome = validate(contents, paths, &config("dotanuki-labs"), &everyone_exists());
    let expected = vec![
        structural(StructuralIssue::DuplicateOwnership, 0, "*.rs defined multiple times : lines [0, 2]"),
        structural(StructuralIssue::DanglingGlobPattern, 1, "docs/**/*.md does not match any project path"),
    ];
    assert_eq!(outcome, ValidationOutcome::IssuesDetected(expected));
}

#[test]
fn validation_should_find_no_consistency_issues() {
    let contents = "*.rs            @dotanuki-labs/rustaceans\n.github/**/*    @ubiratansoares\n";
    let state = FakeGithubState::builder()
        .add_known_user("@ubiratansoares")
        .add_known_team("@dotanuki-labs/rustaceans")
        .build();
    let outcome = validate(contents, vec![".github/CODEOWNERS", "main.rs"], &config("dotanuki-labs"), &state);
    assert_eq!(outcome, ValidationOutcome::NoIssues);
}

#[test]
fn validation_should_detect_non_existing_github_user() {
    let contents = "*.rs            @dotanuki-labs/rustaceans\n.github/**/*    @ufs\n";
    let state = FakeGithubState::builder().add_known_team("@dotanuki-labs/rustaceans").build();
    let outcome = validate(contents, vec![".github/CODEOWNERS", "main.rs"], &config("dotanuki-labs"), &state);
    let handle = GithubIdentityHandle::new("ufs".to_string());
    let expected = issue(
        IssueKind::Consistency(ConsistencyIssue::OutsiderUser(handle)),
        1,
        "'ufs' user does not belong to this organization",
    );
    assert_eq!(outcome, ValidationOutcome::IssuesDetected(vec![expected]));
}

#[test]
fn validation_should_detect_non_existing_github_team() {
    let contents = "*.rs            @dotanuki-labs/rustaceans\n*.md            @dotanuki-labs/writers\n.github/*.json  @dotanuki-labs/devops\n";
    let state = FakeGithubState::builder()
        .add_known_team("@dotanuki-labs/rustaceans")
        .add_known_team("@dotanuki-labs/writers")
        .build();
    let paths = vec![".github/renovate.json", "README.md", "main.rs"];
    let outcome = validate(contents, paths, &config("dotanuki-labs"), &state);
    let handle = GithubTeamHandle::new(GithubIdentityHandle::new("dotanuki-labs".to_string()), "devops".to_string());
    let expected = issue(
        IssueKind::Consistency(ConsistencyIssue::TeamDoesNotExist(handle)),
        2,
        "'devops' team does not belong to 'dotanuki-labs' organization",
    );
    assert_eq!(outcome, ValidationOutcome::IssuesDetected(vec![expected]));
}

#[test]
fn should_honor_offline_checks_only() {
    let config = offline_config(OwnershipConfig::default());
    let outcome = validate_offline("*.rs    @org/rustaceans\n", vec!["main.rs"], &config);
    assert_eq!(outcome, ValidationOutcome::NoIssues);
}

#[test]
fn should_deny_email_owners() {
    let config = offline_config(OwnershipConfig { forbid_email_owners: Some(true), ..Default::default() });
    let outcome = validate_offline("*.rs    me@hakagi.dev\n", vec!["main.rs"], &config);
    let expected = issue(IssueKind::Configuration(ConfigurationIssue::EmailOwnerForbidden), 0, "email owner is not allowed");
    assert_eq!(outcome, ValidationOutcome::IssuesDetected(vec![expected]));
}

#[test]
fn should_enforce_github_teams_owners() {
    let config = offline_config(OwnershipConfig { enforce_github_teams_owners: Some(true), ..Default::default() });
    let outcome = validate_offline("*.rs    @ubiratansoares\n", vec!["main.rs"], &config);
    let expected = issue(
        IssueKind::Configuration(ConfigurationIssue::OnlyGithubTeamOwnerAllowed),
        0,
        "only github team owner is allowed",
    );
    assert_eq!(outcome, ValidationOutcome::IssuesDetected(vec![expected]));
}

#[test]
fn should_enforce_single_owner_per_entry() {
    let config = offline_config(OwnershipConfig { enforce_one_owner_per_line: Some(true), ..Default::default() });
    let outcome = validate_offline("*.rs    @ubiratansoares @dotanukibot\n", vec!["main.rs"], &config);
    let expected = issue(
        IssueKind::Configuration(ConfigurationIssue::OnlyOneOwnerPerEntry),
        0,
        "Entry defines more than one owner for this glob",
    );
    assert_eq!(outcome, ValidationOutcome::IssuesDetected(vec![expected]));
}

#[test]
fn team_policy_wins_over_email_policy() {
    let config = offline_config(OwnershipConfig {
        enforce_github_teams_owners: Some(true),
        forbid_email_owners: Some(true),
        ..Default::default()
    });
    let outcome = validate_offline("*.rs @org/team me@hakagi.dev\n", vec!["main.rs"], &config);
    let expected = issue(
        IssueKind::Configuration(ConfigurationIssue::OnlyGithubTeamOwnerAllowed),
        0,
        "only github team owner is allowed",
    );
    assert_eq!(outcome, ValidationOutcome::IssuesDetected(vec![expected]));
}

#[test]
fn offline_mode_requests_no_github_check() {
    let document = CodeOwners::try_from("*.rs @a @org/b c@d.ee\n").unwrap();
    let config = offline_config(OwnershipConfig::default());
    assert!(consistency_requests(&document, &config).is_empty());
    let online = consistency_requests(&document, &CanopusConfig::default());
    assert_eq!(online.len(), 2);
}

#[test]
fn features_should_find_no_syntax_issues() {
    let outcome = validate("*.rs    @org/rustaceans\n", vec!["main.rs"], &config("org"), &everyone_exists());
    assert_eq!(outcome, ValidationOutcome::NoIssues);
}

#[test]
fn features_should_detect_owners_syntax_issue() {
    let outcome = validate("*.rs    org/rustaceans\n", vec![], &config("org"), &everyone_exists());
    let expected = structural(StructuralIssue::InvalidSyntax, 0, "cannot parse owner");
    assert_eq!(outcome, ValidationOutcome::IssuesDetected(vec![expected]));
}

#[test]
fn features_should_detect_glob_syntax_issue() {
    let outcome = validate("[z-a]*.rs    @org/crabbers\n", vec![], &config("org"), &everyone_exists());
    let expected = structural(StructuralIssue::InvalidSyntax, 0, "invalid glob pattern");
    assert_eq!(outcome, ValidationOutcome::IssuesDetected(vec![expected]));
}

#[test]
fn features_should_report_multiple_issues_for_the_same_entry() {
    let outcome = validate("[z-a]*.rs    org/crabbers\n", vec![], &config("org"), &everyone_exists());
    let expected = vec![
        structural(StructuralIssue::InvalidSyntax, 0, "invalid glob pattern"),
        structural(StructuralIssue::InvalidSyntax, 0, "cannot parse owner"),
    ];
    assert_eq!(outcome, ValidationOutcome::IssuesDetected(expected));
}

#[test]
fn features_should_detect_dangling_globs() {
    let contents = "*.rs            @org/rustaceans\n.automation/    @org/infra\n";
    let outcome = validate(contents, vec!["validation.rs"], &config("org"), &everyone_exists());
    let expected = structural(StructuralIssue::DanglingGlobPattern, 1, ".automation/ does not match any project path");
    assert_eq!(outcome, ValidationOutcome::IssuesDetected(vec![expected]));
}

#[test]
fn features_should_detect_strictly_duplicated_ownership_rules() {
    let contents = "*.rs     @org/rustaceans\ndocs/    @org/rustaceans\n*.rs     @org/crabbers @ubiratansoares\n";
    let paths = vec!["validation.rs", "docs/", "docs/README.md"];
    let outcome = validate(contents, paths, &config("org"), &everyone_exists());
    let expected = structural(StructuralIssue::DuplicateOwnership, 0, "*.rs defined multiple times : lines [0, 2]");
    assert_eq!(outcome, ValidationOutcome::IssuesDetected(vec![expected]));
}

#[test]
fn features_should_detect_multiple_non_syntax_issues() {
    let contents = "*.rs        @org/rustaceans\ndocs/       @org/devs\n*.rs        @org/crabbers @ubiratansoares\n";
    let paths = vec!["validation.rs", ".github/", ".github/CODEOWNERS"];
    let outcome = validate(contents, paths, &config("org"), &everyone_exists());
    let expected = vec![
        structural(StructuralIssue::DuplicateOwnership, 0, "*.rs defined multiple times : lines [0, 2]"),
        structural(StructuralIssue::DanglingGlobPattern, 1, "docs/ does not match any project path"),
    ];
    assert_eq!(outcome, ValidationOutcome::IssuesDetected(expected));
}

#[test]
fn features_should_find_no_consistency_issues() {
    let contents = "*.rs        @dotanuki-labs/rustaceans\n.github/    @ubiratansoares\n";
    let state = FakeGithubState::builder()
        .add_known_user("@ubiratansoares")
        .add_known_team("@dotanuki-labs/rustaceans")
        .build();
    let outcome = validate(contents, vec![".github/", "main.rs"], &config("dotanuki-labs"), &state);
    assert_eq!(outcome, ValidationOutcome::NoIssues);
}

#[test]
fn features_should_detect_non_existing_github_user() {
    let contents = "*.rs        @dotanuki-labs/rustaceans\n.github/    @ufs\n";
    let state = FakeGithubState::builder().add_known_team("@dotanuki-labs/rustaceans").build();
    let outcome = validate(contents, vec![".github/", "main.rs"], &config("dotanuki-labs"), &state);
    let expected = issue(
        IssueKind::Consistency(ConsistencyIssue::OutsiderUser(GithubIdentityHandle::new("ufs".to_string()))),
        1,
        "'ufs' user does not belong to this organization",
    );
    assert_eq!(outcome, ValidationOutcome::IssuesDetected(vec![expected]));
}

#[test]
fn features_should_detect_non_existing_github_team() {
    let contents = "*.rs        @dotanuki-labs/rustaceans\ndocs/       @dotanuki-labs/writers\n.github/    @dotanuki-labs/devops\n";
    let state = FakeGithubState::builder()
        .add_known_team("@dotanuki-labs/rustaceans")
        .add_known_team("@dotanuki-labs/writers")
        .build();
    let outcome = validate(contents, vec![".github/", "docs/", "main.rs"], &config("dotanuki-labs"), &state);
    let handle = GithubTeamHandle::new(GithubIdentityHandle::new("dotanuki-labs".to_string()), "devops".to_string());
    let expected = issue(
        IssueKind::Consistency(ConsistencyIssue::TeamDoesNotExist(handle)),
        2,
        "'devops' team does not belong to 'dotanuki-labs' organization",
    );
    assert_eq!(outcome, ValidationOutcome::IssuesDetected(vec![expected]));
}

#[test]
fn duplicate_grouping_example() {
    let contents = "*.rs @a\ndocs/ @b\n*.rs @c\n";
    let outcome = validate(contents, vec!["main.rs", "docs/"], &config("org"), &FakeGithubState::builder().add_known_user("a").add_known_user("b").add_known_user("c").build());
    let expected = structural(StructuralIssue::DuplicateOwnership, 0, "*.rs defined multiple times : lines [0, 2]");
    assert_eq!(outcome, ValidationOutcome::IssuesDetected(vec![expected]));
}

#[test]
fn matching_pattern_is_not_dangling() {
    let outcome = validate("*.rs @org/rustaceans\n", vec!["main.rs"], &config("org"), &everyone_exists());
    assert_eq!(outcome, ValidationOutcome::NoIssues);
}

#[test]
fn teams_only_offline_end_to_end() {
    let config = offline_config(OwnershipConfig { enforce_github_teams_owners: Some(true), ..Default::default() });
    let outcome = validate_offline("*.rs @ubiratansoares\n", vec!["main.rs"], &config);
    match outcome {
        ValidationOutcome::IssuesDetected(issues) => {
            assert_eq!(issues.len(), 1);
            assert_eq!(issues[0].line, 0);
            assert_eq!(issues[0].kind, IssueKind::Configuration(ConfigurationIssue::OnlyGithubTeamOwnerAllowed));
        },
        other => panic!("expected one issue, got {:?}", other),
    }
}

#[test]
fn consistency_failures_map_to_lines() {
    let document = CodeOwners::try_from("*.rs @org/rust\ndocs/ @writer\n").unwrap();
    let writer = GithubIdentityHandle::new("writer".to_string());
    let results = vec![
        Err(ConsistencyIssue::CannotListMembersInTheOrganization("org".to_string())),
        Err(ConsistencyIssue::UserDoesNotExist(writer.clone())),
        Ok(()),
    ];
    let outcome = validate_codeowners(&document, &vec!["main.rs".to_string(), "docs/".to_string()], &config("org"), &results);
    let expected = vec![
        issue(IssueKind::Consistency(ConsistencyIssue::UserDoesNotExist(writer)), 1, "'writer' user does not exist"),
        issue(
            IssueKind::Consistency(ConsistencyIssue::CannotListMembersInTheOrganization("org".to_string())),
            SENTINEL_LINE,
            "failed to list members that belong to 'org' organization",
        ),
    ];
    assert_eq!(outcome, ValidationOutcome::IssuesDetected(expected));
}

#[test]
fn consistency_messages_name_the_owner() {
    let team = GithubTeamHandle::new(GithubIdentityHandle::new("org".to_string()), "crew".to_string());
    let user = GithubIdentityHandle::new("bob".to_string());
    assert_eq!(ConsistencyIssue::CannotVerifyTeam(team.clone()).message(), "cannot confirm whether 'org/crew' team exists");
    assert_eq!(ConsistencyIssue::TeamDoesNotMatchOrganization(team).message(), "team 'org/crew' does not belong to this organization");
    assert_eq!(ConsistencyIssue::CannotVerifyUser(user.clone()).message(), "cannot confirm if user 'bob' exists");
    assert_eq!(ConsistencyIssue::OrganizationDoesNotExist(user).message(), "'bob' organization does not exist");
}

#[test]
fn issues_render_with_one_based_lines() {
    let a = structural(StructuralIssue::InvalidSyntax, 0, "cannot parse owner");
    assert_eq!(a.to_string(), "L1 : cannot parse owner [structure]");
    let b = issue(
        IssueKind::Consistency(ConsistencyIssue::CannotListMembersInTheOrganization("org".to_string())),
        SENTINEL_LINE,
        "failed",
    );
    assert_eq!(b.to_string(), "Preconditions : failed [consistency]");
    let c = issue(IssueKind::Configuration(ConfigurationIssue::OnlyOneOwnerPerEntry), 41, "x");
    assert_eq!(c.to_string(), "L42 : x [configuration]");
}

#[test]
fn sorting_is_stable_by_line() {
    let a = structural(StructuralIssue::InvalidSyntax, 2, "a");
    let b = structural(StructuralIssue::InvalidSyntax, 0, "b");
    let c = structural(StructuralIssue::InvalidSyntax, 2, "c");
    let d = structural(StructuralIssue::InvalidSyntax, SENTINEL_LINE, "d");
    let e = structural(StructuralIssue::InvalidSyntax, 1, "e");
    let sorted = sort_issues(vec![a.clone(), d.clone(), b.clone(), c.clone(), e.clone()]);
    assert_eq!(sorted, vec![b, e, a, c, d]);
}
