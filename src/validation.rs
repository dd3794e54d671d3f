//! The checks run over a parsed manifest, and how their findings are merged.
use crate::codeowners::{
    CodeOwners, CodeOwnersEntry, EntryView, OwnershipRule, RuleView, entry_views, occurrences_in,
    owner_views, owners_in,
};
use crate::config::{CanopusConfig, OwnershipConfig, is_on, switched_on};
use crate::handles::{Owner, OwnerView};
use crate::issues::{
    ConfigurationIssue, ConsistencyIssue, ConsistencyView, IssueKind, IssueKindView, IssueView, OutcomeView,
    SENTINEL_LINE, StructuralIssue, ValidationIssue, ValidationOutcome, consistency_message, issue_views,
    outcome_of,
};
use crate::text::{append_str, decimal, decimal_string, views};
use vstd::prelude::*;
use vstd::string::*;

verus! {

/// The rules among the entries, in order.
pub open spec fn rules_of(es: Seq<EntryView>) -> Seq<RuleView>
    decreases es.len(),
{
    if es.len() == 0 {
        seq![]
    } else {
        rules_of(es.drop_last()) + match es.last() {
            EntryView::Rule(r) => seq![r],
            _ => seq![],
        }
    }
}

pub open spec fn rule_views(v: Seq<&OwnershipRule>) -> Seq<RuleView> {
    v.map_values(|r: &OwnershipRule| r@)
}

/// The rules of a manifest, in order.
pub fn collect_rules(code_owners: &CodeOwners) -> (r: Vec<&OwnershipRule>)
    ensures
        rule_views(r@) == rules_of(code_owners@),
{
    let entries = code_owners.entries();
    let ghost es = entry_views(entries@);
    let mut r: Vec<&OwnershipRule> = Vec::new();
    let mut i: usize = 0;
    assert(es.take(0) =~= Seq::<EntryView>::empty());
    assert(rule_views(r@) =~= Seq::<RuleView>::empty());
    while i < entries.len()
        invariant
            i <= entries.len(),
            es == entry_views(entries@),
            es == code_owners@,
            rule_views(r@) == rules_of(es.take(i as int)),
        decreases entries.len() - i,
    {
        assert(es.take(i + 1).drop_last() =~= es.take(i as int));
        match &entries[i] {
            CodeOwnersEntry::Rule(rule) => {
                r.push(rule);
                assert(rule_views(r@) =~= rules_of(es.take(i + 1)));
            },
            _ => {
                assert(rules_of(es.take(i + 1)) =~= rules_of(es.take(i as int)));
            },
        }
        i += 1;
    }
    assert(es.take(entries.len() as int) =~= es);
    r
}

/// Whether `globset` builds a matcher for the pattern.
pub uninterp spec fn glob_builds(pattern: Seq<char>) -> bool;

/// Whether the matcher that `globset` builds for the pattern matches the path.
pub uninterp spec fn glob_matches(pattern: Seq<char>, path: Seq<char>) -> bool;

#[verifier::external_type_specification]
#[verifier::external_body]
pub struct ExGlobSet(globset::GlobSet);

/// A compiled glob pattern.
pub struct PatternMatcher {
    pattern: String,
    set: globset::GlobSet,
}

impl PatternMatcher {
    pub closed spec fn pattern(&self) -> Seq<char> {
        self.pattern@
    }

    /// Relies on `globset::Glob::new` and `globset::GlobSetBuilder::build`:
    /// a matcher for the pattern alone, when both accept it; whether they do
    /// depends on the pattern alone.
    #[verifier::external_body]
    fn compile(pattern: &str) -> (r: Option<PatternMatcher>)
        ensures
            r is Some <==> glob_builds(pattern@),
            r matches Some(m) ==> m.pattern() == pattern@,
    {
        let glob = globset::Glob::new(pattern).ok()?;
        let set = globset::GlobSetBuilder::new().add(glob).build().ok()?;
        Some(PatternMatcher { pattern: pattern.to_string(), set })
    }

    /// Relies on `globset::GlobSet::is_match`: whether the path matches; the
    /// answer depends on the pattern and the path alone.
    #[verifier::external_body]
    fn is_match(&self, path: &str) -> (r: bool)
        ensures
            r == glob_matches(self.pattern(), path@),
    {
        self.set.is_match(path)
    }
}

/// Whether some project path matches the pattern.
pub open spec fn matches_some_path(pattern: Seq<char>, paths: Seq<Seq<char>>) -> bool {
    glob_builds(pattern) && exists|i: int| 0 <= i < paths.len() && glob_matches(pattern, paths[i])
}

pub open spec fn dangling_issue(r: RuleView) -> IssueView {
    IssueView {
        kind: IssueKindView::Structure(StructuralIssue::DanglingGlobPattern),
        line: r.line,
        message: r.glob + " does not match any project path"@,
    }
}

/// One diagnostic for each rule whose pattern matches no project path.
pub open spec fn dangling_issues(rules: Seq<RuleView>, paths: Seq<Seq<char>>) -> Seq<IssueView>
    decreases rules.len(),
{
    if rules.len() == 0 {
        seq![]
    } else {
        dangling_issues(rules.drop_last(), paths) + if matches_some_path(rules.last().glob, paths) {
            seq![]
        } else {
            seq![dangling_issue(rules.last())]
        }
    }
}

fn matches_any(pattern: &str, paths: &Vec<String>) -> (r: bool)
    ensures
        r == matches_some_path(pattern@, views(paths@)),
{
    let matcher = match PatternMatcher::compile(pattern) {
        Some(m) => m,
        None => return false,
    };
    let mut i: usize = 0;
    while i < paths.len()
        invariant
            i <= paths.len(),
            matcher.pattern() == pattern@,
            glob_builds(pattern@),
            forall|j: int| 0 <= j < i ==> !glob_matches(pattern@, #[trigger] views(paths@)[j]),
        decreases paths.len() - i,
    {
        if matcher.is_match(paths[i].as_str()) {
            assert(glob_matches(pattern@, views(paths@)[i as int]));
            return true;
        }
        i += 1;
    }
    false
}

/// Reports each rule whose pattern matches none of the project's paths.
pub fn check_non_matching_glob_patterns(rules: &Vec<&OwnershipRule>, paths: &Vec<String>) -> (r: Vec<ValidationIssue>)
    ensures
        issue_views(r@) == dangling_issues(rule_views(rules@), views(paths@)),
{
    let ghost rv = rule_views(rules@);
    let mut r: Vec<ValidationIssue> = Vec::new();
    let mut k: usize = 0;
    assert(rv.take(0) =~= Seq::<RuleView>::empty());
    assert(issue_views(r@) =~= Seq::<IssueView>::empty());
    while k < rules.len()
        invariant
            k <= rules.len(),
            rv == rule_views(rules@),
            issue_views(r@) == dangling_issues(rv.take(k as int), views(paths@)),
        decreases rules.len() - k,
    {
        assert(rv.take(k + 1).drop_last() =~= rv.take(k as int));
        let rule = rules[k];
        if !matches_any(rule.glob.as_str(), paths) {
            let mut message = rule.glob.clone();
            append_str(&mut message, " does not match any project path");
            let ghost before = issue_views(r@);
            r.push(
                ValidationIssue {
                    line: rule.line_number,
                    context: message,
                    kind: IssueKind::Structure(StructuralIssue::DanglingGlobPattern),
                },
            );
            assert(issue_views(r@) =~= before + seq![dangling_issue(rv[k as int])]);
        } else {
            assert(issue_views(r@) =~= issue_views(r@) + Seq::<IssueView>::empty());
        }
        k += 1;
    }
    assert(rv.take(rules.len() as int) =~= rv);
    r
}

/// The lines of the rules whose pattern is exactly `g`.
pub open spec fn lines_with_glob(rules: Seq<RuleView>, g: Seq<char>) -> Seq<usize>
    decreases rules.len(),
{
    if rules.len() == 0 {
        seq![]
    } else {
        lines_with_glob(rules.drop_last(), g) + if rules.last().glob == g {
            seq![rules.last().line]
        } else {
            seq![]
        }
    }
}

/// Whether no rule before the `k`-th has its pattern.
pub open spec fn first_with_glob(rules: Seq<RuleView>, k: int) -> bool {
    forall|j: int| 0 <= j < k ==> rules[j].glob != rules[k].glob
}

pub open spec fn joined_numbers(ls: Seq<usize>) -> Seq<char>
    decreases ls.len(),
{
    if ls.len() == 0 {
        seq![]
    } else if ls.len() == 1 {
        decimal(ls[0] as nat)
    } else {
        joined_numbers(ls.drop_last()) + ", "@ + decimal(ls.last() as nat)
    }
}

/// A list of numbers written `[a, b, c]`.
pub open spec fn number_list(ls: Seq<usize>) -> Seq<char> {
    "["@ + joined_numbers(ls) + "]"@
}

pub open spec fn duplicate_issue(g: Seq<char>, ls: Seq<usize>) -> IssueView {
    IssueView {
        kind: IssueKindView::Structure(StructuralIssue::DuplicateOwnership),
        line: ls[0],
        message: g + " defined multiple times : lines "@ + number_list(ls),
    }
}

/// The duplicate diagnostics of the patterns first used by the first `n` rules.
pub open spec fn duplicate_issues_upto(rules: Seq<RuleView>, n: int) -> Seq<IssueView>
    decreases n,
{
    if n <= 0 {
        seq![]
    } else {
        let g = rules[n - 1].glob;
        duplicate_issues_upto(rules, n - 1) + if first_with_glob(rules, n - 1) && lines_with_glob(rules, g).len() > 1 {
            seq![duplicate_issue(g, lines_with_glob(rules, g))]
        } else {
            seq![]
        }
    }
}

/// One diagnostic for each pattern that more than one rule uses, at its first
/// line, listing all its lines; in the order of first use.
pub open spec fn duplicate_issues(rules: Seq<RuleView>) -> Seq<IssueView> {
    duplicate_issues_upto(rules, rules.len() as int)
}

fn lines_for_glob(rules: &Vec<&OwnershipRule>, g: &String) -> (r: Vec<usize>)
    ensures
        r@ == lines_with_glob(rule_views(rules@), g@),
{
    let ghost rv = rule_views(rules@);
    let mut r: Vec<usize> = Vec::new();
    let mut k: usize = 0;
    assert(rv.take(0) =~= Seq::<RuleView>::empty());
    while k < rules.len()
        invariant
            k <= rules.len(),
            rv == rule_views(rules@),
            r@ == lines_with_glob(rv.take(k as int), g@),
        decreases rules.len() - k,
    {
        assert(rv.take(k + 1).drop_last() =~= rv.take(k as int));
        if rules[k].glob == *g {
            r.push(rules[k].line_number);
            assert(r@ =~= lines_with_glob(rv.take(k + 1), g@));
        } else {
            assert(r@ =~= lines_with_glob(rv.take(k + 1), g@));
        }
        k += 1;
    }
    assert(rv.take(rules.len() as int) =~= rv);
    r
}

fn render_number_list(ls: &Vec<usize>) -> (r: String)
    ensures
        r@ == number_list(ls@),
{
    let mut body = String::new();
    let mut i: usize = 0;
    assert(ls@.take(0) =~= Seq::<usize>::empty());
    while i < ls.len()
        invariant
            i <= ls.len(),
            body@ == joined_numbers(ls@.take(i as int)),
        decreases ls.len() - i,
    {
        assert(ls@.take(i + 1).drop_last() =~= ls@.take(i as int));
        if i > 0 {
            append_str(&mut body, ", ");
        }
        let digits = decimal_string(ls[i]);
        append_str(&mut body, digits.as_str());
        proof {
            if i == 0 {
                assert(body@ =~= joined_numbers(ls@.take(1)));
            }
        }
        i += 1;
    }
    assert(ls@.take(ls.len() as int) =~= ls@);
    let mut r = String::from_str("[");
    append_str(&mut r, body.as_str());
    append_str(&mut r, "]");
    r
}

/// Reports each pattern that several rules use.
pub fn check_duplicated_owners(rules: &Vec<&OwnershipRule>) -> (r: Vec<ValidationIssue>)
    ensures
        issue_views(r@) == duplicate_issues(rule_views(rules@)),
{
    let ghost rv = rule_views(rules@);
    let mut r: Vec<ValidationIssue> = Vec::new();
    let mut k: usize = 0;
    assert(issue_views(r@) =~= Seq::<IssueView>::empty());
    while k < rules.len()
        invariant
            k <= rules.len(),
            rv == rule_views(rules@),
            issue_views(r@) == duplicate_issues_upto(rv, k as int),
        decreases rules.len() - k,
    {
        let g = &rules[k].glob;
        let mut first = true;
        let mut j: usize = 0;
        while j < k
            invariant
                j <= k < rules.len(),
                rv == rule_views(rules@),
                g@ == rv[k as int].glob,
                first == forall|i: int| 0 <= i < j ==> rv[i].glob != rv[k as int].glob,
            decreases k - j,
        {
            assert(rv[j as int] == rules@[j as int]@);
            if rules[j].glob == *g {
                first = false;
            }
            j += 1;
        }
        let ghost before = issue_views(r@);
        if first {
            let lines = lines_for_glob(rules, g);
            if lines.len() > 1 {
                let mut message = g.clone();
                append_str(&mut message, " defined multiple times : lines ");
                let list = render_number_list(&lines);
                append_str(&mut message, list.as_str());
                r.push(
                    ValidationIssue {
                        line: lines[0],
                        context: message,
                        kind: IssueKind::Structure(StructuralIssue::DuplicateOwnership),
                    },
                );
                assert(issue_views(r@) =~= before + seq![duplicate_issue(g@, lines@)]);
            } else {
                assert(issue_views(r@) =~= before + Seq::<IssueView>::empty());
            }
        } else {
            assert(issue_views(r@) =~= before + Seq::<IssueView>::empty());
        }
        k += 1;
    }
    r
}

pub open spec fn configuration_issue(kind: ConfigurationIssue, line: usize, message: Seq<char>) -> IssueView {
    IssueView { kind: IssueKindView::Configuration(kind), line, message }
}

/// One diagnostic for each rule that does not name exactly one owner.
pub open spec fn single_owner_issues(rules: Seq<RuleView>) -> Seq<IssueView>
    decreases rules.len(),
{
    if rules.len() == 0 {
        seq![]
    } else {
        single_owner_issues(rules.drop_last()) + if rules.last().owners.len() != 1 {
            seq![
                configuration_issue(
                    ConfigurationIssue::OnlyOneOwnerPerEntry,
                    rules.last().line,
                    "Entry defines more than one owner for this glob"@,
                ),
            ]
        } else {
            seq![]
        }
    }
}

/// Reports each rule with more than one owner, when the project asks for one.
pub fn check_multiple_ownership_per_entry(rules: &Vec<&OwnershipRule>, config: &CanopusConfig) -> (r: Vec<ValidationIssue>)
    ensures
        issue_views(r@) == if is_on(config.ownership.enforce_one_owner_per_line) {
            single_owner_issues(rule_views(rules@))
        } else {
            seq![]
        },
{
    let mut r: Vec<ValidationIssue> = Vec::new();
    if !switched_on(config.ownership.enforce_one_owner_per_line) {
        assert(issue_views(r@) =~= Seq::<IssueView>::empty());
        return r;
    }
    let ghost rv = rule_views(rules@);
    let mut k: usize = 0;
    assert(rv.take(0) =~= Seq::<RuleView>::empty());
    assert(issue_views(r@) =~= Seq::<IssueView>::empty());
    while k < rules.len()
        invariant
            k <= rules.len(),
            rv == rule_views(rules@),
            issue_views(r@) == single_owner_issues(rv.take(k as int)),
        decreases rules.len() - k,
    {
        assert(rv.take(k + 1).drop_last() =~= rv.take(k as int));
        let ghost before = issue_views(r@);
        if rules[k].owners.len() != 1 {
            r.push(
                ValidationIssue {
                    line: rules[k].line_number,
                    context: String::from_str("Entry defines more than one owner for this glob"),
                    kind: IssueKind::Configuration(ConfigurationIssue::OnlyOneOwnerPerEntry),
                },
            );
            assert(issue_views(r@) =~= single_owner_issues(rv.take(k + 1)));
        } else {
            assert(issue_views(r@) =~= single_owner_issues(rv.take(k + 1)));
        }
        k += 1;
    }
    assert(rv.take(rules.len() as int) =~= rv);
    r
}

/// The first line that names the owner, or the sentinel line if none does.
pub open spec fn anchor_line(es: Seq<EntryView>, o: OwnerView) -> usize {
    let occ = occurrences_in(es, o);
    if occ.len() > 0 {
        occ[0]
    } else {
        SENTINEL_LINE
    }
}

fn anchor(code_owners: &CodeOwners, owner: &Owner) -> (r: usize)
    ensures
        r == anchor_line(code_owners@, owner@),
{
    let occ = code_owners.occurrences(owner);
    if occ.len() > 0 {
        occ[0]
    } else {
        SENTINEL_LINE
    }
}

/// Diagnostics for the owners `os` of a kind that the policy refuses: any
/// owner but a team when `team_only`, else email owners.
pub open spec fn owner_kind_issues(es: Seq<EntryView>, os: Seq<OwnerView>, team_only: bool) -> Seq<IssueView>
    decreases os.len(),
{
    if os.len() == 0 {
        seq![]
    } else {
        let o = os.last();
        owner_kind_issues(es, os.drop_last(), team_only) + if team_only {
            if !(o is GithubTeam) {
                seq![
                    configuration_issue(
                        ConfigurationIssue::OnlyGithubTeamOwnerAllowed,
                        anchor_line(es, o),
                        "only github team owner is allowed"@,
                    ),
                ]
            } else {
                seq![]
            }
        } else if o is EmailAddress {
            seq![
                configuration_issue(
                    ConfigurationIssue::EmailOwnerForbidden,
                    anchor_line(es, o),
                    "email owner is not allowed"@,
                ),
            ]
        } else {
            seq![]
        }
    }
}

/// The owner-kind policy: teams only, which wins over no email owners.
pub open spec fn allowed_owner_issues(es: Seq<EntryView>, ownership: OwnershipConfig) -> Seq<IssueView> {
    if is_on(ownership.enforce_github_teams_owners) {
        owner_kind_issues(es, owners_in(es), true)
    } else if is_on(ownership.forbid_email_owners) {
        owner_kind_issues(es, owners_in(es), false)
    } else {
        seq![]
    }
}

fn check_owner_kinds(code_owners: &CodeOwners, team_only: bool) -> (r: Vec<ValidationIssue>)
    ensures
        issue_views(r@) == owner_kind_issues(code_owners@, owners_in(code_owners@), team_only),
{
    let owners = code_owners.unique_owners();
    let ghost os = owner_views(owners@);
    let mut r: Vec<ValidationIssue> = Vec::new();
    let mut k: usize = 0;
    assert(os.take(0) =~= Seq::<OwnerView>::empty());
    assert(issue_views(r@) =~= Seq::<IssueView>::empty());
    while k < owners.len()
        invariant
            k <= owners.len(),
            os == owner_views(owners@),
            os == owners_in(code_owners@),
            issue_views(r@) == owner_kind_issues(code_owners@, os.take(k as int), team_only),
        decreases owners.len() - k,
    {
        assert(os.take(k + 1).drop_last() =~= os.take(k as int));
        assert(os.take(k + 1).last() == owners@[k as int]@);
        let owner = &owners[k];
        let ghost before = issue_views(r@);
        if team_only {
            if !owner.is_github_team() {
                r.push(
                    ValidationIssue {
                        line: anchor(code_owners, owner),
                        context: String::from_str("only github team owner is allowed"),
                        kind: IssueKind::Configuration(ConfigurationIssue::OnlyGithubTeamOwnerAllowed),
                    },
                );
            }
        } else if owner.is_email_address() {
            r.push(
                ValidationIssue {
                    line: anchor(code_owners, owner),
                    context: String::from_str("email owner is not allowed"),
                    kind: IssueKind::Configuration(ConfigurationIssue::EmailOwnerForbidden),
                },
            );
        }
        assert(issue_views(r@) =~= owner_kind_issues(code_owners@, os.take(k + 1), team_only));
        k += 1;
    }
    assert(os.take(owners.len() as int) =~= os);
    r
}

/// Reports owners of a kind that the project's policy refuses.
pub fn check_allowed_owners(code_owners: &CodeOwners, config: &CanopusConfig) -> (r: Vec<ValidationIssue>)
    ensures
        issue_views(r@) == allowed_owner_issues(code_owners@, config.ownership),
{
    if switched_on(config.ownership.enforce_github_teams_owners) {
        check_owner_kinds(code_owners, true)
    } else if switched_on(config.ownership.forbid_email_owners) {
        check_owner_kinds(code_owners, false)
    } else {
        let r: Vec<ValidationIssue> = Vec::new();
        assert(issue_views(r@) =~= Seq::<IssueView>::empty());
        r
    }
}

/// The line a consistency finding is reported on: the first line naming the
/// owner concerned, or the sentinel line when no single line is concerned.
pub open spec fn consistency_line(es: Seq<EntryView>, c: ConsistencyView) -> usize {
    match c {
        ConsistencyView::CannotListMembersInTheOrganization(_) => SENTINEL_LINE,
        ConsistencyView::UserDoesNotExist(h) => anchor_line(es, OwnerView::GithubUser(h)),
        ConsistencyView::OrganizationDoesNotExist(h) => anchor_line(es, OwnerView::GithubUser(h)),
        ConsistencyView::OutsiderUser(h) => anchor_line(es, OwnerView::GithubUser(h)),
        ConsistencyView::CannotVerifyUser(h) => anchor_line(es, OwnerView::GithubUser(h)),
        ConsistencyView::TeamDoesNotExist(t) => anchor_line(es, OwnerView::GithubTeam(t)),
        ConsistencyView::CannotVerifyTeam(t) => anchor_line(es, OwnerView::GithubTeam(t)),
        ConsistencyView::TeamDoesNotMatchOrganization(t) => anchor_line(es, OwnerView::GithubTeam(t)),
    }
}

pub open spec fn consistency_issue(es: Seq<EntryView>, c: ConsistencyView) -> IssueView {
    IssueView { kind: IssueKindView::Consistency(c), line: consistency_line(es, c), message: consistency_message(c) }
}

impl ConsistencyIssue {
    /// The diagnostic for this finding, on the line it concerns.
    pub fn to_validation_issue(&self, code_owners: &CodeOwners) -> (r: ValidationIssue)
        ensures
            r@ == consistency_issue(code_owners@, self@),
    {
        let line = match self {
            ConsistencyIssue::CannotListMembersInTheOrganization(_) => SENTINEL_LINE,
            ConsistencyIssue::UserDoesNotExist(h) | ConsistencyIssue::OrganizationDoesNotExist(h)
            | ConsistencyIssue::OutsiderUser(h) | ConsistencyIssue::CannotVerifyUser(h) => anchor(
                code_owners,
                &Owner::GithubUser(h.clone()),
            ),
            ConsistencyIssue::TeamDoesNotExist(t) | ConsistencyIssue::CannotVerifyTeam(t)
            | ConsistencyIssue::TeamDoesNotMatchOrganization(t) => anchor(
                code_owners,
                &Owner::GithubTeam(t.clone()),
            ),
        };
        ValidationIssue { line, context: self.message(), kind: IssueKind::Consistency(self.clone()) }
    }
}

pub open spec fn result_views(v: Seq<Result<(), ConsistencyIssue>>) -> Seq<Result<(), ConsistencyView>> {
    v.map_values(
        |r: Result<(), ConsistencyIssue>|
            match r {
                Ok(_) => Ok::<(), ConsistencyView>(()),
                Err(c) => Err::<(), ConsistencyView>(c@),
            },
    )
}

/// One diagnostic for each failed check, in order.
pub open spec fn consistency_issues(es: Seq<EntryView>, results: Seq<Result<(), ConsistencyView>>) -> Seq<IssueView>
    decreases results.len(),
{
    if results.len() == 0 {
        seq![]
    } else {
        consistency_issues(es, results.drop_last()) + match results.last() {
            Ok(_) => seq![],
            Err(c) => seq![consistency_issue(es, c)],
        }
    }
}

/// Turns the outcomes of the GitHub checks into diagnostics; none when the
/// project asks for offline checks only.
pub fn check_github_consistency(
    code_owners: &CodeOwners,
    config: &CanopusConfig,
    results: &Vec<Result<(), ConsistencyIssue>>,
) -> (r: Vec<ValidationIssue>)
    ensures
        issue_views(r@) == if is_on(config.general.offline_checks_only) {
            seq![]
        } else {
            consistency_issues(code_owners@, result_views(results@))
        },
{
    let mut r: Vec<ValidationIssue> = Vec::new();
    assert(issue_views(r@) =~= Seq::<IssueView>::empty());
    if switched_on(config.general.offline_checks_only) {
        return r;
    }
    let ghost rv = result_views(results@);
    let mut k: usize = 0;
    assert(rv.take(0) =~= Seq::<Result<(), ConsistencyView>>::empty());
    while k < results.len()
        invariant
            k <= results.len(),
            rv == result_views(results@),
            issue_views(r@) == consistency_issues(code_owners@, rv.take(k as int)),
        decreases results.len() - k,
    {
        assert(rv.take(k + 1).drop_last() =~= rv.take(k as int));
        assert(rv.take(k + 1).last() == rv[k as int]);
        match &results[k] {
            Ok(_) => {
                assert(issue_views(r@) =~= consistency_issues(code_owners@, rv.take(k + 1)));
            },
            Err(c) => {
                r.push(c.to_validation_issue(code_owners));
                assert(issue_views(r@) =~= consistency_issues(code_owners@, rv.take(k + 1)));
            },
        }
        k += 1;
    }
    assert(rv.take(results.len() as int) =~= rv);
    r
}

/// Places `x` after every diagnostic of `s` whose line is not greater.
pub open spec fn insert_by_line(s: Seq<IssueView>, x: IssueView) -> Seq<IssueView>
    decreases s.len(),
{
    if s.len() == 0 {
        seq![x]
    } else if s.last().line <= x.line {
        s.push(x)
    } else {
        insert_by_line(s.drop_last(), x).push(s.last())
    }
}

/// The diagnostics ordered by line, keeping the given order among equal lines.
pub open spec fn sort_by_line(s: Seq<IssueView>) -> Seq<IssueView>
    decreases s.len(),
{
    if s.len() == 0 {
        seq![]
    } else {
        insert_by_line(sort_by_line(s.drop_last()), s.last())
    }
}

pub open spec fn sorted_by_line(s: Seq<IssueView>) -> bool {
    forall|i: int, j: int| 0 <= i < j < s.len() ==> s[i].line <= s[j].line
}

proof fn lemma_insert_at(s: Seq<IssueView>, x: IssueView, p: int)
    requires
        0 <= p <= s.len(),
        forall|j: int| p <= j < s.len() ==> s[j].line > x.line,
        p == 0 || s[p - 1].line <= x.line,
    ensures
        insert_by_line(s, x) == s.take(p).push(x) + s.skip(p),
    decreases s.len(),
{
    if s.len() == 0 {
        assert(s.take(p).push(x) + s.skip(p) =~= seq![x]);
    } else if p == s.len() {
        assert(s.take(p).push(x) + s.skip(p) =~= s.push(x));
    } else {
        let t = s.drop_last();
        lemma_insert_at(t, x, p);
        assert(t.take(p).push(x) + t.skip(p) + seq![s.last()] =~= s.take(p).push(x) + s.skip(p));
    }
}

proof fn lemma_insert_sorted(s: Seq<IssueView>, x: IssueView)
    requires
        sorted_by_line(s),
    ensures
        sorted_by_line(insert_by_line(s, x)),
        insert_by_line(s, x).to_multiset() == s.to_multiset().insert(x),
    decreases s.len(),
{
    broadcast use vstd::seq_lib::group_to_multiset_ensures;
    if s.len() == 0 {
        assert(seq![x] =~= Seq::<IssueView>::empty().push(x));
    } else if s.last().line <= x.line {
    } else {
        let t = s.drop_last();
        lemma_insert_sorted(t, x);
        let u = insert_by_line(t, x);
        assert(s =~= t.push(s.last()));
        assert forall|i: int, j: int| 0 <= i < j < u.len() + 1 implies #[trigger] u.push(s.last())[i].line
            <= #[trigger] u.push(s.last())[j].line by {
            if j == u.len() {
                assert(u.to_multiset().count(u[i]) > 0);
                assert(u[i] == x || t.to_multiset().count(u[i]) > 0);
                if u[i] != x {
                    assert(t.contains(u[i]));
                    let k = choose|k: int| 0 <= k < t.len() && t[k] == u[i];
                    assert(s[k] == t[k]);
                }
            }
        }
    }
}

/// Sorting orders by line and keeps every diagnostic.
pub proof fn lemma_sort_by_line(s: Seq<IssueView>)
    ensures
        sorted_by_line(sort_by_line(s)),
        sort_by_line(s).to_multiset() == s.to_multiset(),
    decreases s.len(),
{
    broadcast use vstd::seq_lib::group_to_multiset_ensures;
    if s.len() > 0 {
        lemma_sort_by_line(s.drop_last());
        lemma_insert_sorted(sort_by_line(s.drop_last()), s.last());
        assert(s =~= s.drop_last().push(s.last()));
    }
}

fn insert_issue(v: &mut Vec<ValidationIssue>, x: ValidationIssue)
    ensures
        issue_views(final(v)@) == insert_by_line(issue_views(old(v)@), x@),
{
    let ghost s = issue_views(v@);
    let mut p = v.len();
    while p > 0 && v[p - 1].line > x.line
        invariant
            p <= v.len(),
            s == issue_views(v@),
            forall|j: int| p <= j < v.len() ==> s[j].line > x.line,
        decreases p,
    {
        p -= 1;
    }
    proof {
        lemma_insert_at(s, x@, p as int);
    }
    v.insert(p, x);
    assert(issue_views(v@) =~= s.take(p as int).push(x@) + s.skip(p as int));
}

/// The diagnostics ordered by line; equal lines keep their order.
pub fn sort_issues(v: Vec<ValidationIssue>) -> (r: Vec<ValidationIssue>)
    ensures
        issue_views(r@) == sort_by_line(issue_views(v@)),
{
    let ghost s = issue_views(v@);
    let mut rest = v;
    let mut r: Vec<ValidationIssue> = Vec::new();
    let mut k: usize = 0;
    let n = rest.len();
    assert(s.take(0) =~= Seq::<IssueView>::empty());
    assert(issue_views(r@) =~= Seq::<IssueView>::empty());
    while rest.len() > 0
        invariant
            k + rest.len() == n,
            n == s.len(),
            issue_views(rest@) == s.skip(k as int),
            issue_views(r@) == sort_by_line(s.take(k as int)),
        decreases rest.len(),
    {
        let ghost before = rest@;
        assert(issue_views(before)[0] == s.skip(k as int)[0]);
        let x = rest.remove(0);
        assert(x == before[0]);
        assert(x@ == s[k as int]);
        assert(issue_views(rest@) =~= issue_views(before).drop_first());
        assert(s.take(k + 1).drop_last() =~= s.take(k as int));
        insert_issue(&mut r, x);
        assert(issue_views(rest@) =~= s.skip(k + 1));
        k += 1;
    }
    assert(s.take(n as int) =~= s);
    r
}

/// The findings of every check, in the order the checks run: dangling
/// patterns, duplicate patterns, the one-owner policy, the owner-kind
/// policy, and the GitHub checks unless offline.
pub open spec fn validation_issues(
    es: Seq<EntryView>,
    paths: Seq<Seq<char>>,
    config: CanopusConfig,
    results: Seq<Result<(), ConsistencyView>>,
) -> Seq<IssueView> {
    let rules = rules_of(es);
    dangling_issues(rules, paths) + duplicate_issues(rules) + (if is_on(
        config.ownership.enforce_one_owner_per_line,
    ) {
        single_owner_issues(rules)
    } else {
        seq![]
    }) + allowed_owner_issues(es, config.ownership) + (if is_on(config.general.offline_checks_only) {
        seq![]
    } else {
        consistency_issues(es, results)
    })
}

/// The outcome of validating a manifest against the project's paths, its
/// settings, and the outcomes of the GitHub checks of its owners (those of
/// `consistency_requests`, in any order).
pub open spec fn validation_outcome(
    es: Seq<EntryView>,
    paths: Seq<Seq<char>>,
    config: CanopusConfig,
    results: Seq<Result<(), ConsistencyView>>,
) -> OutcomeView {
    outcome_of(sort_by_line(validation_issues(es, paths, config, results)))
}

/// Runs every check over a parsed manifest and merges the findings by line.
pub fn validate_codeowners(
    code_owners: &CodeOwners,
    project_paths: &Vec<String>,
    config: &CanopusConfig,
    consistency: &Vec<Result<(), ConsistencyIssue>>,
) -> (r: ValidationOutcome)
    ensures
        r@ == validation_outcome(code_owners@, views(project_paths@), *config, result_views(consistency@)),
{
    let rules = collect_rules(code_owners);
    let mut all = check_non_matching_glob_patterns(&rules, project_paths);
    let ghost a = issue_views(all@);
    let mut duplicates = check_duplicated_owners(&rules);
    let ghost b = issue_views(duplicates@);
    all.append(&mut duplicates);
    let mut single = check_multiple_ownership_per_entry(&rules, config);
    let ghost c = issue_views(single@);
    all.append(&mut single);
    let mut kinds = check_allowed_owners(code_owners, config);
    let ghost d = issue_views(kinds@);
    all.append(&mut kinds);
    let mut github = check_github_consistency(code_owners, config, consistency);
    let ghost e = issue_views(github@);
    all.append(&mut github);
    assert(issue_views(all@) =~= a + b + c + d + e);
    ValidationOutcome::from_issues(sort_issues(all))
}

/// With offline checks only, the outcomes of GitHub checks play no part: the
/// outcome is the same whatever they are (and `consistency_requests` asks for
/// no check at all).
pub proof fn lemma_offline_ignores_github(
    es: Seq<EntryView>,
    paths: Seq<Seq<char>>,
    config: CanopusConfig,
    a: Seq<Result<(), ConsistencyView>>,
    b: Seq<Result<(), ConsistencyView>>,
)
    requires
        is_on(config.general.offline_checks_only),
    ensures
        validation_outcome(es, paths, config, a) == validation_outcome(es, paths, config, b),
{
    assert(validation_issues(es, paths, config, a) == validation_issues(es, paths, config, b));
}

/// The diagnostics of a validation run are ordered by line, the sentinel line
/// last, and are exactly the findings of the checks.
pub proof fn lemma_outcome_sorted(
    es: Seq<EntryView>,
    paths: Seq<Seq<char>>,
    config: CanopusConfig,
    results: Seq<Result<(), ConsistencyView>>,
)
    ensures
        ({
            let all = validation_issues(es, paths, config, results);
            match validation_outcome(es, paths, config, results) {
                OutcomeView::NoIssues => all.len() == 0,
                OutcomeView::IssuesDetected(s) => {
                    &&& s.len() > 0
                    &&& sorted_by_line(s)
                    &&& s.to_multiset() == all.to_multiset()
                },
            }
        }),
{
    broadcast use vstd::seq_lib::group_to_multiset_ensures;
    let all = validation_issues(es, paths, config, results);
    lemma_sort_by_line(all);
    if sort_by_line(all).len() == 0 && all.len() > 0 {
        assert(all.to_multiset().count(all[0]) > 0);
    }
}

pub open spec fn strictly_increasing(s: Seq<usize>) -> bool {
    forall|i: int, j: int| 0 <= i < j < s.len() ==> s[i] < s[j]
}

proof fn lemma_rule_lines(es: Seq<EntryView>)
    requires
        forall|k: int| 0 <= k < es.len() ==> (#[trigger] es[k] matches EntryView::Rule(r) ==> r.line == k),
    ensures
        forall|i: int| 0 <= i < rules_of(es).len() ==> (#[trigger] rules_of(es)[i]).line < es.len(),
        forall|i: int, j: int| 0 <= i < j < rules_of(es).len() ==> #[trigger] rules_of(es)[i].line < #[trigger] rules_of(es)[j].line,
    decreases es.len(),
{
    if es.len() > 0 {
        let p = es.drop_last();
        assert forall|k: int| 0 <= k < p.len() implies (#[trigger] p[k] matches EntryView::Rule(r) ==> r.line == k) by {
            assert(p[k] == es[k]);
        }
        lemma_rule_lines(p);
        let last = es[es.len() - 1];
        assert(es.last() == last);
    }
}

proof fn lemma_glob_lines_increasing(rules: Seq<RuleView>, g: Seq<char>)
    requires
        forall|i: int, j: int| 0 <= i < j < rules.len() ==> #[trigger] rules[i].line < #[trigger] rules[j].line,
    ensures
        strictly_increasing(lines_with_glob(rules, g)),
        forall|i: int| 0 <= i < lines_with_glob(rules, g).len() ==> exists|j: int| 0 <= j < rules.len() && #[trigger] lines_with_glob(rules, g)[i] == rules[j].line,
    decreases rules.len(),
{
    if rules.len() > 0 {
        let p = rules.drop_last();
        assert forall|i: int, j: int| 0 <= i < j < p.len() implies #[trigger] p[i].line < #[trigger] p[j].line by {
            assert(p[i] == rules[i] && p[j] == rules[j]);
        }
        lemma_glob_lines_increasing(p, g);
        let prev = lines_with_glob(p, g);
        let all = lines_with_glob(rules, g);
        assert forall|i: int| 0 <= i < all.len() implies exists|j: int| 0 <= j < rules.len() && #[trigger] all[i] == rules[j].line by {
            if i < prev.len() {
                let j = choose|j: int| 0 <= j < p.len() && prev[i] == p[j].line;
                assert(all[i] == prev[i]);
                assert(rules[j] == p[j]);
            } else {
                assert(all[i] == rules[rules.len() - 1].line);
            }
        }
        assert forall|i: int, j: int| 0 <= i < j < all.len() implies all[i] < all[j] by {
            if j < prev.len() {
                assert(all[i] == prev[i] && all[j] == prev[j]);
            } else {
                assert(all[j] == rules[rules.len() - 1].line);
                let k = choose|k: int| 0 <= k < p.len() && prev[i] == p[k].line;
                assert(all[i] == prev[i]);
                assert(rules[k] == p[k]);
            }
        }
    }
}

/// In a manifest that reads without diagnostics, the lines that a duplicate
/// diagnostic lists are in ascending order.
pub proof fn lemma_duplicate_lines_ascending(text: Seq<char>, g: Seq<char>)
    requires
        crate::codeowners::document_of(text).1.len() == 0,
        crate::codeowners::document_of(text).0.len() <= usize::MAX,
    ensures
        strictly_increasing(lines_with_glob(rules_of(crate::codeowners::document_of(text).0), g)),
{
    let ls = crate::text::lines_of(text);
    let es = crate::codeowners::document_of(text).0;
    crate::round_trip::lemma_parse_lines_ok(ls);
    assert forall|k: int| 0 <= k < es.len() implies (#[trigger] es[k] matches EntryView::Rule(r) ==> r.line == k) by {
        assert((k as usize) as int == k);
        let e = crate::codeowners::entry_of(k as usize, ls[k]);
        assert(e == Ok::<EntryView, Seq<IssueView>>(es[k]));
        if let EntryView::Rule(r) = es[k] {
            let toks = crate::text::tokens_of(ls[k]);
            assert(toks.len() > 0 && ls[k][0] != '#');
            assert(crate::codeowners::rule_of(k as usize, toks) == e);
        }
    }
    lemma_rule_lines(es);
    lemma_glob_lines_increasing(rules_of(es), g);
}

/// The owners that are not email addresses, in order.
pub open spec fn github_owners(os: Seq<OwnerView>) -> Seq<OwnerView>
    decreases os.len(),
{
    if os.len() == 0 {
        seq![]
    } else {
        github_owners(os.drop_last()) + if os.last() is EmailAddress {
            seq![]
        } else {
            seq![os.last()]
        }
    }
}

/// The owners whose existence GitHub must confirm: every distinct user or
/// team owner, and none when the project asks for offline checks only.
pub fn consistency_requests(code_owners: &CodeOwners, config: &CanopusConfig) -> (r: Vec<Owner>)
    ensures
        owner_views(r@) == if is_on(config.general.offline_checks_only) {
            seq![]
        } else {
            github_owners(owners_in(code_owners@))
        },
{
    let mut r: Vec<Owner> = Vec::new();
    assert(owner_views(r@) =~= Seq::<OwnerView>::empty());
    if switched_on(config.general.offline_checks_only) {
        return r;
    }
    let owners = code_owners.unique_owners();
    let ghost os = owner_views(owners@);
    let mut k: usize = 0;
    assert(os.take(0) =~= Seq::<OwnerView>::empty());
    while k < owners.len()
        invariant
            k <= owners.len(),
            os == owner_views(owners@),
            owner_views(r@) == github_owners(os.take(k as int)),
        decreases owners.len() - k,
    {
        assert(os.take(k + 1).drop_last() =~= os.take(k as int));
        assert(os.take(k + 1).last() == owners@[k as int]@);
        if !owners[k].is_email_address() {
            r.push(owners[k].clone());
        }
        assert(owner_views(r@) =~= github_owners(os.take(k + 1)));
        k += 1;
    }
    assert(os.take(owners.len() as int) =~= os);
    r
}

} // verus!
