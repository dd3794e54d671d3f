//! The project's validation settings.
use vstd::prelude::*;

verus! {

/// An optional switch, off unless set to `true`.
pub open spec fn is_on(flag: Option<bool>) -> bool {
    flag == Some(true)
}

pub fn switched_on(flag: Option<bool>) -> (r: bool)
    ensures
        r == is_on(flag),
{
    match flag {
        Some(b) => b,
        None => false,
    }
}

#[derive(Debug, Clone, PartialEq, Eq)]
pub struct GeneralConfig {
    /// The GitHub organization that owns the project.
    pub github_organization: String,
    /// Whether to skip every check against GitHub.
    pub offline_checks_only: Option<bool>,
}

#[derive(Debug, Clone, Copy, PartialEq, Eq)]
pub struct OwnershipConfig {
    /// Whether only GitHub teams may own paths.
    pub enforce_github_teams_owners: Option<bool>,
    /// Whether each rule may name one owner only.
    pub enforce_one_owner_per_line: Option<bool>,
    /// Whether email addresses may not own paths.
    pub forbid_email_owners: Option<bool>,
}

#[derive(Debug, Clone, PartialEq, Eq)]
pub struct CanopusConfig {
    pub general: GeneralConfig,
    pub ownership: OwnershipConfig,
}

impl Default for GeneralConfig {
    fn default() -> (r: Self)
        ensures
            r.github_organization@ == Seq::<char>::empty(),
            r.offline_checks_only is None,
    {
        GeneralConfig { github_organization: String::new(), offline_checks_only: None }
    }
}

impl Default for OwnershipConfig {
    fn default() -> (r: Self)
        ensures
            r.enforce_github_teams_owners is None,
            r.enforce_one_owner_per_line is None,
            r.forbid_email_owners is None,
    {
        OwnershipConfig {
            enforce_github_teams_owners: None,
            enforce_one_owner_per_line: None,
            forbid_email_owners: None,
        }
    }
}

impl Default for CanopusConfig {
    fn default() -> (r: Self)
        ensures
            r.general.github_organization@ == Seq::<char>::empty(),
            r.general.offline_checks_only is None,
            r.ownership.enforce_github_teams_owners is None,
            r.ownership.enforce_one_owner_per_line is None,
            r.ownership.forbid_email_owners is None,
    {
        CanopusConfig { general: GeneralConfig::default(), ownership: OwnershipConfig::default() }
    }
}

} // verus!
