//! Checking owners against GitHub: the decisions of the API-backed checker,
//! and a checker over a fixed set of known users and teams.
use crate::codeowners::owner_views;
use crate::handles::{GithubIdentityHandle, GithubTeamHandle, Owner, OwnerView, TeamView};
use crate::issues::{ConsistencyIssue, ConsistencyView};
use crate::text::{append_str, chars_of, string_of, views};
use crate::validation::result_views;
use vstd::prelude::*;
use vstd::string::*;

verus! {

/// Confirms that users and teams exist within an organization.
pub trait CheckGithubConsistency {
    fn github_identity(&self, organization: &str, handle: &GithubIdentityHandle) -> Result<(), ConsistencyIssue>;

    fn github_team(&self, organization: &str, handle: &GithubTeamHandle) -> Result<(), ConsistencyIssue>;
}

/// How one GitHub request ended.
#[derive(Debug, Clone, Copy, PartialEq, Eq, Structural)]
pub enum LookupStatus {
    Found,
    NotFound,
    Failed,
}

/// What a failed request for a page of organization members means: a
/// missing page ends the listing, any other failure stops the check.
pub fn member_listing_failure(organization: &str, status: LookupStatus) -> (r: Option<ConsistencyIssue>)
    ensures
        status == LookupStatus::NotFound ==> r is None,
        status != LookupStatus::NotFound ==> (r matches Some(c)
            && c@ == ConsistencyView::CannotListMembersInTheOrganization(organization@)),
{
    match status {
        LookupStatus::NotFound => None,
        _ => Some(ConsistencyIssue::CannotListMembersInTheOrganization(organization.to_owned())),
    }
}

/// Whether the user is among the members.
pub fn is_member(members: &Vec<GithubIdentityHandle>, user: &GithubIdentityHandle) -> (r: bool)
    ensures
        r == exists|i: int| 0 <= i < members.len() && members@[i]@ == user@,
{
    let target = user.inner();
    let mut i: usize = 0;
    while i < members.len()
        invariant
            i <= members.len(),
            target@ == user@,
            forall|j: int| 0 <= j < i ==> members@[j]@ != user@,
        decreases members.len() - i,
    {
        let name = members[i].inner();
        if eq_chars(name, target) {
            return true;
        }
        i += 1;
    }
    false
}

fn eq_chars(a: &str, b: &str) -> (r: bool)
    ensures
        r == (a@ == b@),
{
    let x = chars_of(a);
    let y = chars_of(b);
    if x.len() != y.len() {
        return false;
    }
    let mut i: usize = 0;
    while i < x.len()
        invariant
            x@ == a@,
            y@ == b@,
            x.len() == y.len(),
            i <= x.len(),
            forall|j: int| 0 <= j < i ==> x@[j] == y@[j],
        decreases x.len() - i,
    {
        if x[i] != y[i] {
            assert(a@[i as int] != b@[i as int]);
            return false;
        }
        i += 1;
    }
    assert(x@ =~= y@);
    true
}

/// The finding about a user who is not a member, from the lookup of its
/// profile: it exists outside the organization, does not exist, or could not
/// be looked up.
pub fn user_lookup_verdict(user: &GithubIdentityHandle, profile: LookupStatus) -> (r: ConsistencyIssue)
    ensures
        r@ == match profile {
            LookupStatus::Found => ConsistencyView::OutsiderUser(user@),
            LookupStatus::NotFound => ConsistencyView::UserDoesNotExist(user@),
            LookupStatus::Failed => ConsistencyView::CannotVerifyUser(user@),
        },
{
    match profile {
        LookupStatus::Found => ConsistencyIssue::OutsiderUser(user.clone()),
        LookupStatus::NotFound => ConsistencyIssue::UserDoesNotExist(user.clone()),
        LookupStatus::Failed => ConsistencyIssue::CannotVerifyUser(user.clone()),
    }
}

/// A team of another organization than the project's is refused before any
/// lookup.
pub fn team_precheck(organization: &str, team: &GithubTeamHandle) -> (r: Option<ConsistencyIssue>)
    ensures
        team@.organization == organization@ ==> r is None,
        team@.organization != organization@ ==> (r matches Some(c)
            && c@ == ConsistencyView::TeamDoesNotMatchOrganization(team@)),
{
    if eq_chars(team.organization.inner(), organization) {
        None
    } else {
        Some(ConsistencyIssue::TeamDoesNotMatchOrganization(team.clone()))
    }
}

/// The outcome of looking a team up.
pub fn team_lookup_verdict(team: &GithubTeamHandle, status: LookupStatus) -> (r: Result<(), ConsistencyIssue>)
    ensures
        match status {
            LookupStatus::Found => r is Ok,
            LookupStatus::NotFound => (r matches Err(c) && c@ == ConsistencyView::TeamDoesNotExist(team@)),
            LookupStatus::Failed => (r matches Err(c) && c@ == ConsistencyView::CannotVerifyTeam(team@)),
        },
{
    match status {
        LookupStatus::Found => Ok(()),
        LookupStatus::NotFound => Err(ConsistencyIssue::TeamDoesNotExist(team.clone())),
        LookupStatus::Failed => Err(ConsistencyIssue::CannotVerifyTeam(team.clone())),
    }
}

/// `s` without its `@` characters.
pub open spec fn without_ats(s: Seq<char>) -> Seq<char>
    decreases s.len(),
{
    if s.len() == 0 {
        s
    } else if s.last() == '@' {
        without_ats(s.drop_last())
    } else {
        without_ats(s.drop_last()).push(s.last())
    }
}

fn strip_all_ats(s: &str) -> (r: String)
    ensures
        r@ == without_ats(s@),
{
    let cs = chars_of(s);
    let mut r = String::new();
    let mut i: usize = 0;
    while i < cs.len()
        invariant
            cs@ == s@,
            i <= cs.len(),
            r@ == without_ats(s@.take(i as int)),
        decreases cs.len() - i,
    {
        assert(s@.take(i + 1).drop_last() =~= s@.take(i as int));
        if cs[i] != '@' {
            let piece = string_of(&cs, i, i + 1);
            append_str(&mut r, piece.as_str());
            assert(r@ =~= without_ats(s@.take(i + 1)));
        }
        i += 1;
    }
    assert(s@.take(cs.len() as int) =~= s@);
    r
}

/// GitHub as a fixed list of known users and of known `org/team` names.
pub struct FakeGithubState {
    known_users: Vec<String>,
    known_teams: Vec<String>,
}

pub struct KnownView {
    pub users: Seq<Seq<char>>,
    pub teams: Seq<Seq<char>>,
}

impl View for FakeGithubState {
    type V = KnownView;

    closed spec fn view(&self) -> KnownView {
        KnownView { users: views(self.known_users@), teams: views(self.known_teams@) }
    }
}

#[derive(Debug)]
pub struct FakeGithubStateBuilder {
    known_users: Vec<String>,
    known_teams: Vec<String>,
}

impl View for FakeGithubStateBuilder {
    type V = KnownView;

    closed spec fn view(&self) -> KnownView {
        KnownView { users: views(self.known_users@), teams: views(self.known_teams@) }
    }
}

impl FakeGithubStateBuilder {
    /// Adds a user, written with or without `@`.
    pub fn add_known_user(self, username: &str) -> (r: Self)
        ensures
            r@ == (KnownView { users: self@.users.push(without_ats(username@)), ..self@ }),
    {
        let mut known_users = self.known_users;
        let ghost before = views(known_users@);
        known_users.push(strip_all_ats(username));
        assert(views(known_users@) =~= before.push(without_ats(username@)));
        FakeGithubStateBuilder { known_users, known_teams: self.known_teams }
    }

    /// Adds a team, written `@org/name` or `org/name`.
    pub fn add_known_team(self, team: &str) -> (r: Self)
        ensures
            r@ == (KnownView { teams: self@.teams.push(without_ats(team@)), ..self@ }),
    {
        let mut known_teams = self.known_teams;
        let ghost before = views(known_teams@);
        known_teams.push(strip_all_ats(team));
        assert(views(known_teams@) =~= before.push(without_ats(team@)));
        FakeGithubStateBuilder { known_users: self.known_users, known_teams }
    }

    pub fn build(self) -> (r: FakeGithubState)
        ensures
            r@ == self@,
    {
        FakeGithubState::new(self.known_users, self.known_teams)
    }
}

/// The known user check.
pub open spec fn known_user_check(st: KnownView, name: Seq<char>) -> Result<(), ConsistencyView> {
    if st.users.contains(name) {
        Ok(())
    } else {
        Err(ConsistencyView::OutsiderUser(name))
    }
}

/// The known team check.
pub open spec fn known_team_check(st: KnownView, t: TeamView) -> Result<(), ConsistencyView> {
    if st.teams.contains(t.organization + "/"@ + t.name) {
        Ok(())
    } else {
        Err(ConsistencyView::TeamDoesNotExist(t))
    }
}

/// The check of one owner; email owners always pass.
pub open spec fn known_owner_check(st: KnownView, o: OwnerView) -> Result<(), ConsistencyView> {
    match o {
        OwnerView::GithubUser(h) => known_user_check(st, h),
        OwnerView::GithubTeam(t) => known_team_check(st, t),
        OwnerView::EmailAddress(_) => Ok(()),
    }
}

fn contains_name(names: &Vec<String>, name: &str) -> (r: bool)
    ensures
        r == views(names@).contains(name@),
{
    let mut i: usize = 0;
    while i < names.len()
        invariant
            i <= names.len(),
            forall|j: int| 0 <= j < i ==> views(names@)[j] != name@,
        decreases names.len() - i,
    {
        if eq_chars(names[i].as_str(), name) {
            assert(views(names@)[i as int] == name@);
            return true;
        }
        i += 1;
    }
    false
}

impl FakeGithubState {
    pub fn builder() -> (r: FakeGithubStateBuilder)
        ensures
            r@.users.len() == 0,
            r@.teams.len() == 0,
    {
        let r = FakeGithubStateBuilder { known_users: Vec::new(), known_teams: Vec::new() };
        assert(r@.users =~= Seq::<Seq<char>>::empty());
        assert(r@.teams =~= Seq::<Seq<char>>::empty());
        r
    }

    pub fn new(known_users: Vec<String>, known_teams: Vec<String>) -> (r: Self)
        ensures
            r@ == (KnownView { users: views(known_users@), teams: views(known_teams@) }),
    {
        Self { known_users, known_teams }
    }

    pub fn check_registered_user(&self, user: &GithubIdentityHandle) -> (r: Result<(), ConsistencyIssue>)
        ensures
            match r {
                Ok(_) => known_user_check(self@, user@) is Ok,
                Err(c) => known_user_check(self@, user@) == Err::<(), ConsistencyView>(c@),
            },
    {
        if contains_name(&self.known_users, user.inner()) {
            Ok(())
        } else {
            Err(ConsistencyIssue::OutsiderUser(user.clone()))
        }
    }

    pub fn check_registered_team(&self, team: &GithubTeamHandle) -> (r: Result<(), ConsistencyIssue>)
        ensures
            match r {
                Ok(_) => known_team_check(self@, team@) is Ok,
                Err(c) => known_team_check(self@, team@) == Err::<(), ConsistencyView>(c@),
            },
    {
        let mut formatted = String::from_str(team.organization.inner());
        append_str(&mut formatted, "/");
        append_str(&mut formatted, team.name.as_str());
        if contains_name(&self.known_teams, formatted.as_str()) {
            Ok(())
        } else {
            Err(ConsistencyIssue::TeamDoesNotExist(team.clone()))
        }
    }

    /// Checks each owner in turn.
    pub fn check_owners(&self, owners: &Vec<Owner>) -> (r: Vec<Result<(), ConsistencyIssue>>)
        ensures
            result_views(r@) == owner_views(owners@).map_values(|o: OwnerView| known_owner_check(self@, o)),
    {
        let mut r: Vec<Result<(), ConsistencyIssue>> = Vec::new();
        let mut k: usize = 0;
        while k < owners.len()
            invariant
                k <= owners.len(),
                result_views(r@) == owner_views(owners@).take(k as int).map_values(
                    |o: OwnerView| known_owner_check(self@, o),
                ),
            decreases owners.len() - k,
        {
            let outcome = match &owners[k] {
                Owner::GithubUser(h) => self.check_registered_user(h),
                Owner::GithubTeam(t) => self.check_registered_team(t),
                Owner::EmailAddress(_) => Ok(()),
            };
            let ghost before = result_views(r@);
            let ghost expected = known_owner_check(self@, owners@[k as int]@);
            assert(match outcome {
                Ok(_) => expected == Ok::<(), ConsistencyView>(()),
                Err(c) => expected == Err::<(), ConsistencyView>(c@),
            });
            r.push(outcome);
            assert(result_views(r@) =~= before.push(expected));
            assert(owner_views(owners@).take(k + 1) =~= owner_views(owners@).take(k as int).push(owners@[k as int]@));
            assert(result_views(r@) =~= owner_views(owners@).take(k + 1).map_values(
                |o: OwnerView| known_owner_check(self@, o),
            ));
            k += 1;
        }
        assert(owner_views(owners@).take(owners.len() as int) =~= owner_views(owners@));
        r
    }
}

impl CheckGithubConsistency for FakeGithubState {
    fn github_identity(&self, _organization: &str, handle: &GithubIdentityHandle) -> Result<(), ConsistencyIssue> {
        self.check_registered_user(handle)
    }

    fn github_team(&self, _organization: &str, handle: &GithubTeamHandle) -> Result<(), ConsistencyIssue> {
        self.check_registered_team(handle)
    }
}

} // verus!
