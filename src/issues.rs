//! Diagnostics: what kind of problem was found, on which line, and why.
use crate::handles::{GithubIdentityHandle, GithubTeamHandle, TeamView};
use crate::text::{append_str, decimal, decimal_string};
use vstd::prelude::*;
use vstd::string::*;

verus! {

/// The line value of diagnostics that belong to no single line.
pub const SENTINEL_LINE: usize = usize::MAX;

#[derive(Debug, Clone, Copy, PartialEq, Eq, Structural)]
pub enum StructuralIssue {
    InvalidSyntax,
    DanglingGlobPattern,
    DuplicateOwnership,
}

#[derive(Debug, Clone, Copy, PartialEq, Eq, Structural)]
pub enum ConfigurationIssue {
    EmailOwnerForbidden,
    OnlyGithubTeamOwnerAllowed,
    OnlyOneOwnerPerEntry,
}

/// A finding about an owner that GitHub does not confirm.
#[derive(Debug, PartialEq, Eq)]
pub enum ConsistencyIssue {
    CannotListMembersInTheOrganization(String),
    CannotVerifyUser(GithubIdentityHandle),
    CannotVerifyTeam(GithubTeamHandle),
    OrganizationDoesNotExist(GithubIdentityHandle),
    OutsiderUser(GithubIdentityHandle),
    TeamDoesNotMatchOrganization(GithubTeamHandle),
    TeamDoesNotExist(GithubTeamHandle),
    UserDoesNotExist(GithubIdentityHandle),
}

pub enum ConsistencyView {
    CannotListMembersInTheOrganization(Seq<char>),
    CannotVerifyUser(Seq<char>),
    CannotVerifyTeam(TeamView),
    OrganizationDoesNotExist(Seq<char>),
    OutsiderUser(Seq<char>),
    TeamDoesNotMatchOrganization(TeamView),
    TeamDoesNotExist(TeamView),
    UserDoesNotExist(Seq<char>),
}

impl View for ConsistencyIssue {
    type V = ConsistencyView;

    open spec fn view(&self) -> ConsistencyView {
        match self {
            ConsistencyIssue::CannotListMembersInTheOrganization(o) => ConsistencyView::CannotListMembersInTheOrganization(o@),
            ConsistencyIssue::CannotVerifyUser(h) => ConsistencyView::CannotVerifyUser(h@),
            ConsistencyIssue::CannotVerifyTeam(t) => ConsistencyView::CannotVerifyTeam(t@),
            ConsistencyIssue::OrganizationDoesNotExist(h) => ConsistencyView::OrganizationDoesNotExist(h@),
            ConsistencyIssue::OutsiderUser(h) => ConsistencyView::OutsiderUser(h@),
            ConsistencyIssue::TeamDoesNotMatchOrganization(t) => ConsistencyView::TeamDoesNotMatchOrganization(t@),
            ConsistencyIssue::TeamDoesNotExist(t) => ConsistencyView::TeamDoesNotExist(t@),
            ConsistencyIssue::UserDoesNotExist(h) => ConsistencyView::UserDoesNotExist(h@),
        }
    }
}

impl Clone for ConsistencyIssue {
    fn clone(&self) -> (r: Self)
        ensures
            r == *self,
    {
        match self {
            ConsistencyIssue::CannotListMembersInTheOrganization(o) => ConsistencyIssue::CannotListMembersInTheOrganization(o.clone()),
            ConsistencyIssue::CannotVerifyUser(h) => ConsistencyIssue::CannotVerifyUser(h.clone()),
            ConsistencyIssue::CannotVerifyTeam(t) => ConsistencyIssue::CannotVerifyTeam(t.clone()),
            ConsistencyIssue::OrganizationDoesNotExist(h) => ConsistencyIssue::OrganizationDoesNotExist(h.clone()),
            ConsistencyIssue::OutsiderUser(h) => ConsistencyIssue::OutsiderUser(h.clone()),
            ConsistencyIssue::TeamDoesNotMatchOrganization(t) => ConsistencyIssue::TeamDoesNotMatchOrganization(t.clone()),
            ConsistencyIssue::TeamDoesNotExist(t) => ConsistencyIssue::TeamDoesNotExist(t.clone()),
            ConsistencyIssue::UserDoesNotExist(h) => ConsistencyIssue::UserDoesNotExist(h.clone()),
        }
    }
}

/// The message that describes a consistency finding.
pub open spec fn consistency_message(c: ConsistencyView) -> Seq<char> {
    match c {
        ConsistencyView::UserDoesNotExist(h) => "'"@ + h + "' user does not exist"@,
        ConsistencyView::OrganizationDoesNotExist(h) => "'"@ + h + "' organization does not exist"@,
        ConsistencyView::TeamDoesNotExist(t) => "'"@ + t.name + "' team does not belong to '"@
            + t.organization + "' organization"@,
        ConsistencyView::OutsiderUser(h) => "'"@ + h + "' user does not belong to this organization"@,
        ConsistencyView::CannotVerifyUser(h) => "cannot confirm if user '"@ + h + "' exists"@,
        ConsistencyView::CannotVerifyTeam(t) => "cannot confirm whether '"@ + t.organization + "/"@
            + t.name + "' team exists"@,
        ConsistencyView::CannotListMembersInTheOrganization(o) => "failed to list members that belong to '"@
            + o + "' organization"@,
        ConsistencyView::TeamDoesNotMatchOrganization(t) => "team '"@ + t.organization + "/"@ + t.name
            + "' does not belong to this organization"@,
    }
}

fn join3(a: &str, b: &str, c: &str) -> (r: String)
    ensures
        r@ == a@ + b@ + c@,
{
    let mut r = String::from_str(a);
    append_str(&mut r, b);
    append_str(&mut r, c);
    r
}

fn join5(a: &str, b: &str, c: &str, d: &str, e: &str) -> (r: String)
    ensures
        r@ == a@ + b@ + c@ + d@ + e@,
{
    let mut r = join3(a, b, c);
    append_str(&mut r, d);
    append_str(&mut r, e);
    r
}

impl ConsistencyIssue {
    /// The message that describes this finding.
    pub fn message(&self) -> (r: String)
        ensures
            r@ == consistency_message(self@),
    {
        match self {
            ConsistencyIssue::UserDoesNotExist(h) => join3("'", h.inner(), "' user does not exist"),
            ConsistencyIssue::OrganizationDoesNotExist(h) => join3("'", h.inner(), "' organization does not exist"),
            ConsistencyIssue::TeamDoesNotExist(t) => join5(
                "'",
                t.name.as_str(),
                "' team does not belong to '",
                t.organization.inner(),
                "' organization",
            ),
            ConsistencyIssue::OutsiderUser(h) => join3("'", h.inner(), "' user does not belong to this organization"),
            ConsistencyIssue::CannotVerifyUser(h) => join3("cannot confirm if user '", h.inner(), "' exists"),
            ConsistencyIssue::CannotVerifyTeam(t) => join5(
                "cannot confirm whether '",
                t.organization.inner(),
                "/",
                t.name.as_str(),
                "' team exists",
            ),
            ConsistencyIssue::CannotListMembersInTheOrganization(o) => join3(
                "failed to list members that belong to '",
                o.as_str(),
                "' organization",
            ),
            ConsistencyIssue::TeamDoesNotMatchOrganization(t) => join5(
                "team '",
                t.organization.inner(),
                "/",
                t.name.as_str(),
                "' does not belong to this organization",
            ),
        }
    }
}

/// What a diagnostic is about, in three families.
#[derive(Debug, Clone, PartialEq, Eq)]
pub enum IssueKind {
    Structure(StructuralIssue),
    Consistency(ConsistencyIssue),
    Configuration(ConfigurationIssue),
}

pub enum IssueKindView {
    Structure(StructuralIssue),
    Consistency(ConsistencyView),
    Configuration(ConfigurationIssue),
}

impl View for IssueKind {
    type V = IssueKindView;

    open spec fn view(&self) -> IssueKindView {
        match self {
            IssueKind::Structure(s) => IssueKindView::Structure(*s),
            IssueKind::Consistency(c) => IssueKindView::Consistency(c@),
            IssueKind::Configuration(c) => IssueKindView::Configuration(*c),
        }
    }
}

/// The family name that a rendered diagnostic ends with.
pub open spec fn category_of(k: IssueKindView) -> Seq<char> {
    match k {
        IssueKindView::Structure(_) => "structure"@,
        IssueKindView::Consistency(_) => "consistency"@,
        IssueKindView::Configuration(_) => "configuration"@,
    }
}

impl IssueKind {
    pub fn category(&self) -> (r: &'static str)
        ensures
            r@ == category_of(self@),
    {
        match self {
            IssueKind::Structure(_) => "structure",
            IssueKind::Consistency(_) => "consistency",
            IssueKind::Configuration(_) => "configuration",
        }
    }
}

/// A diagnostic anchored at a 0-based line of the manifest.
#[derive(Debug, Clone, PartialEq, Eq)]
pub struct ValidationIssue {
    pub line: usize,
    pub context: String,
    pub kind: IssueKind,
}

pub struct IssueView {
    pub kind: IssueKindView,
    pub line: usize,
    pub message: Seq<char>,
}

impl View for ValidationIssue {
    type V = IssueView;

    open spec fn view(&self) -> IssueView {
        IssueView { kind: self.kind@, line: self.line, message: self.context@ }
    }
}

/// How a diagnostic is shown: `L<line + 1> : <message> [<family>]`, or with
/// `Preconditions` in place of the line for the sentinel line.
pub open spec fn rendered(i: IssueView) -> Seq<char> {
    if i.line == SENTINEL_LINE {
        "Preconditions : "@ + i.message + " ["@ + category_of(i.kind) + "]"@
    } else {
        "L"@ + decimal(i.line as nat + 1) + " : "@ + i.message + " ["@ + category_of(i.kind) + "]"@
    }
}

impl ValidationIssue {
    pub fn builder() -> (r: ValidationIssueBuilder)
        ensures
            r@ == (BuilderView { kind: None, line: None, message: None }),
    {
        ValidationIssueBuilder { kind: None, line: None, context: None }
    }

    /// The diagnostic as one line of text.
    pub fn to_string(&self) -> (r: String)
        ensures
            r@ == rendered(self@),
    {
        let head = if self.line == SENTINEL_LINE {
            String::from_str("Preconditions")
        } else {
            let mut h = String::from_str("L");
            let number = decimal_string(self.line + 1);
            append_str(&mut h, number.as_str());
            h
        };
        let mut r = head;
        append_str(&mut r, " : ");
        append_str(&mut r, self.context.as_str());
        append_str(&mut r, " [");
        append_str(&mut r, self.kind.category());
        append_str(&mut r, "]");
        proof {
            reveal_strlit("Preconditions");
            reveal_strlit("Preconditions : ");
            reveal_strlit(" : ");
            if self.line == SENTINEL_LINE {
                assert(r@ =~= rendered(self@));
            } else {
                assert(r@ =~= rendered(self@));
            }
        }
        r
    }
}

/// Accumulates the three parts of a diagnostic.
pub struct ValidationIssueBuilder {
    kind: Option<IssueKind>,
    line: Option<usize>,
    context: Option<String>,
}

pub struct BuilderView {
    pub kind: Option<IssueKindView>,
    pub line: Option<usize>,
    pub message: Option<Seq<char>>,
}

impl View for ValidationIssueBuilder {
    type V = BuilderView;

    closed spec fn view(&self) -> BuilderView {
        BuilderView {
            kind: match self.kind {
                Some(k) => Some(k@),
                None => None,
            },
            line: self.line,
            message: match self.context {
                Some(c) => Some(c@),
                None => None,
            },
        }
    }
}

impl ValidationIssueBuilder {
    pub fn kind(self, kind: IssueKind) -> (r: Self)
        ensures
            r@ == (BuilderView { kind: Some(kind@), ..self@ }),
    {
        ValidationIssueBuilder { kind: Some(kind), line: self.line, context: self.context }
    }

    pub fn line_number(self, line: usize) -> (r: Self)
        ensures
            r@ == (BuilderView { line: Some(line), ..self@ }),
    {
        ValidationIssueBuilder { kind: self.kind, line: Some(line), context: self.context }
    }

    pub fn description(self, context: &str) -> (r: Self)
        ensures
            r@ == (BuilderView { message: Some(context@), ..self@ }),
    {
        ValidationIssueBuilder { kind: self.kind, line: self.line, context: Some(context.to_owned()) }
    }

    pub fn message(self, context: String) -> (r: Self)
        ensures
            r@ == (BuilderView { message: Some(context@), ..self@ }),
    {
        ValidationIssueBuilder { kind: self.kind, line: self.line, context: Some(context) }
    }

    /// The diagnostic; every part must have been given.
    pub fn build(self) -> (r: ValidationIssue)
        requires
            self@.kind is Some,
            self@.line is Some,
            self@.message is Some,
        ensures
            r@ == (IssueView {
                kind: self@.kind.unwrap(),
                line: self@.line.unwrap(),
                message: self@.message.unwrap(),
            }),
    {
        match (self.kind, self.line, self.context) {
            (Some(kind), Some(line), Some(context)) => ValidationIssue { line, context, kind },
            _ => {
                proof {
                    assert(false);
                }
                ValidationIssue {
                    line: 0,
                    context: String::new(),
                    kind: IssueKind::Structure(StructuralIssue::InvalidSyntax),
                }
            },
        }
    }
}

/// The result of a validation run.
#[derive(Debug, Clone, PartialEq, Eq)]
pub enum ValidationOutcome {
    NoIssues,
    IssuesDetected(Vec<ValidationIssue>),
}

pub open spec fn issue_views(v: Seq<ValidationIssue>) -> Seq<IssueView> {
    v.map_values(|i: ValidationIssue| i@)
}

pub enum OutcomeView {
    NoIssues,
    IssuesDetected(Seq<IssueView>),
}

impl View for ValidationOutcome {
    type V = OutcomeView;

    open spec fn view(&self) -> OutcomeView {
        match self {
            ValidationOutcome::NoIssues => OutcomeView::NoIssues,
            ValidationOutcome::IssuesDetected(v) => OutcomeView::IssuesDetected(issue_views(v@)),
        }
    }
}

/// `NoIssues` for no diagnostic, else the diagnostics.
pub open spec fn outcome_of(issues: Seq<IssueView>) -> OutcomeView {
    if issues.len() == 0 {
        OutcomeView::NoIssues
    } else {
        OutcomeView::IssuesDetected(issues)
    }
}

impl ValidationOutcome {
    pub fn from_issues(issues: Vec<ValidationIssue>) -> (r: Self)
        ensures
            r@ == outcome_of(issue_views(issues@)),
    {
        if issues.len() == 0 {
            ValidationOutcome::NoIssues
        } else {
            ValidationOutcome::IssuesDetected(issues)
        }
    }
}

/// The diagnostics that stopped a manifest from being read.
#[derive(Debug, Clone, PartialEq, Eq)]
pub struct CodeownersParsingOutcome(pub Vec<ValidationIssue>);

} // verus!
