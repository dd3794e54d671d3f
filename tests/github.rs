use canopus::github::{
    is_member, member_listing_failure, team_lookup_verdict, team_precheck, user_lookup_verdict,
    CheckGithubConsistency, FakeGithubState, LookupStatus,
};
use canopus::handles::{GithubIdentityHandle, GithubTeamHandle, Owner};
use canopus::issues::ConsistencyIssue;
use canopus::project::{CanopusCommand, GitAwarePathWalker};

fn user(name: &str) -> GithubIdentityHandle {
    GithubIdentityHandle::new(name.to_string())
}

fn team(org: &str, name: &str) -> GithubTeamHandle {
    GithubTeamHandle::new(user(org), name.to_string())
}

#[test]
fn should_report_user_found_within_organization_members() {
    let members = vec![user("ubiratansoares"), user("dotanuki-bot")];
    assert!(is_member(&members, &user("ubiratansoares")));
}

#[test]
fn should_report_user_outside_github_organization() {
    let members = vec![user("ubiratansoares"), user("dotanuki-bot")];
    let identity = user("itto-ogami");
    assert!(!is_member(&members, &identity));
    assert_eq!(user_lookup_verdict(&identity, LookupStatus::Found), ConsistencyIssue::OutsiderUser(identity));
}

#[test]
fn should_report_user_not_found() {
    let identity = user("itto-ogami");
    assert_eq!(user_lookup_verdict(&identity, LookupStatus::NotFound), ConsistencyIssue::UserDoesNotExist(identity));
}

#[test]
fn should_report_team_does_not_match() {
    let handle = team("dotanuki", "crabbers");
    assert_eq!(
        team_precheck("dotanuki-labs", &handle),
        Some(ConsistencyIssue::TeamDoesNotMatchOrganization(handle.clone()))
    );
    assert_eq!(team_precheck("dotanuki", &handle), None);
}

#[test]
fn should_report_team_not_found() {
    let handle = team("dotanuki-labs", "crabbers");
    assert_eq!(team_lookup_verdict(&handle, LookupStatus::NotFound), Err(ConsistencyIssue::TeamDoesNotExist(handle)));
}

#[test]
fn should_report_user_not_verified() {
    assert_eq!(
        member_listing_failure("dotanuki", LookupStatus::Failed),
        Some(ConsistencyIssue::CannotListMembersInTheOrganization("dotanuki".to_string()))
    );
    assert_eq!(member_listing_failure("dotanuki", LookupStatus::NotFound), None);
    let identity = user("ubiratansoares");
    assert_eq!(user_lookup_verdict(&identity, LookupStatus::Failed), ConsistencyIssue::CannotVerifyUser(identity));
}

#[test]
fn should_report_team_not_verified() {
    let handle = team("dotanuki", "crabbers");
    assert_eq!(team_lookup_verdict(&handle, LookupStatus::Failed), Err(ConsistencyIssue::CannotVerifyTeam(handle.clone())));
    assert_eq!(team_lookup_verdict(&handle, LookupStatus::Found), Ok(()));
}

#[test]
fn known_state_checks_each_owner() {
    let state = FakeGithubState::builder().add_known_user("@alice").add_known_team("@org/crew").build();
    assert_eq!(state.github_identity("org", &user("alice")), Ok(()));
    assert_eq!(state.github_identity("org", &user("bob")), Err(ConsistencyIssue::OutsiderUser(user("bob"))));
    assert_eq!(state.github_team("org", &team("org", "crew")), Ok(()));
    assert_eq!(
        state.github_team("org", &team("org", "other")),
        Err(ConsistencyIssue::TeamDoesNotExist(team("org", "other")))
    );
    let owners = vec![Owner::parse("a@b.cc").unwrap(), Owner::parse("@bob").unwrap()];
    assert_eq!(state.check_owners(&owners), vec![Ok(()), Err(ConsistencyIssue::OutsiderUser(user("bob")))]);
}

#[test]
fn commands_describe_themselves() {
    let validate = CanopusCommand::ValidateCodeowners("/tmp".to_string());
    assert_eq!(validate.description(), "Validates the CODEOWNERS configuration for a project");
    let repair = CanopusCommand::RepairCodeowners { project_root: "/tmp".to_string(), dry_run: true, remove_lines: false };
    assert_eq!(repair.description(), "Repairs the CODEOWNERS configuration for a project");
    assert_eq!(GitAwarePathWalker::new("/src".to_string()).origin, "/src");
}
