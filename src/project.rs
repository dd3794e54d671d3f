//! The project around a manifest: where the manifest lives, how its paths are
//! listed, and the commands that act on it.
use crate::text::views;
use vstd::prelude::*;

verus! {

/// A requested command.
#[derive(Debug, Clone, PartialEq, Eq)]
pub enum CanopusCommand {
    ValidateCodeowners(String),
    RepairCodeowners { project_root: String, dry_run: bool, remove_lines: bool },
}

impl CanopusCommand {
    /// What the command does, in one sentence.
    pub fn description(&self) -> (r: &'static str)
        ensures
            self is ValidateCodeowners ==> r@ == "Validates the CODEOWNERS configuration for a project"@,
            self is RepairCodeowners ==> r@ == "Repairs the CODEOWNERS configuration for a project"@,
    {
        match self {
            CanopusCommand::ValidateCodeowners(_) => "Validates the CODEOWNERS configuration for a project",
            CanopusCommand::RepairCodeowners { .. } => "Repairs the CODEOWNERS configuration for a project",
        }
    }
}

/// The places a manifest may live, relative to the project root, in the
/// order they are looked at.
pub open spec fn candidate_locations() -> Seq<Seq<char>> {
    seq![".github/CODEOWNERS"@, "CODEOWNERS"@, "docs/CODEOWNERS"@]
}

pub fn codeowners_candidates() -> (r: Vec<&'static str>)
    ensures
        r@.map_values(|s: &str| s@) == candidate_locations(),
{
    let r = vec![".github/CODEOWNERS", "CODEOWNERS", "docs/CODEOWNERS"];
    assert(r@.map_values(|s: &str| s@) =~= candidate_locations());
    r
}

pub open spec fn count_present(found: Seq<bool>) -> nat
    decreases found.len(),
{
    if found.len() == 0 {
        0
    } else {
        count_present(found.drop_last()) + if found.last() {
            1nat
        } else {
            0nat
        }
    }
}

/// Why no single manifest was found.
#[derive(Debug, Clone, Copy, PartialEq, Eq, Structural)]
pub enum LocationError {
    NotFound,
    Multiple,
}

impl LocationError {
    pub fn message(&self) -> (r: &'static str)
        ensures
            *self == LocationError::NotFound ==> r@ == "no CODEOWNERS definition found in the project"@,
            *self == LocationError::Multiple ==> r@ == "found multiple CODEOWNERS definitions"@,
    {
        match self {
            LocationError::NotFound => "no CODEOWNERS definition found in the project",
            LocationError::Multiple => "found multiple CODEOWNERS definitions",
        }
    }
}

/// A manifest that was found: the project root, where the manifest is, and
/// its text.
#[derive(Debug, Clone, PartialEq, Eq)]
pub struct CodeOwnersContext {
    pub project_root: String,
    pub location: String,
    pub contents: String,
}

impl CodeOwnersContext {
    /// Picks the manifest among the candidates that exist (`found[i]` tells
    /// whether the `i`-th candidate exists): exactly one must.
    pub fn check_conventional_codeowners_location(found: &Vec<bool>) -> (r: Result<usize, LocationError>)
        ensures
            count_present(found@) == 0 <==> r == Err::<usize, LocationError>(LocationError::NotFound),
            count_present(found@) > 1 <==> r == Err::<usize, LocationError>(LocationError::Multiple),
            r matches Ok(i) ==> count_present(found@) == 1 && i < found.len() && found@[i as int],
    {
        let mut count: usize = 0;
        let mut at: usize = 0;
        let mut i: usize = 0;
        assert(found@.take(0) =~= Seq::<bool>::empty());
        while i < found.len()
            invariant
                i <= found.len(),
                count == count_present(found@.take(i as int)),
                count <= i,
                count > 0 ==> at < i && found@[at as int],
            decreases found.len() - i,
        {
            assert(found@.take(i + 1).drop_last() =~= found@.take(i as int));
            if found[i] {
                count += 1;
                at = i;
            }
            i += 1;
        }
        assert(found@.take(found.len() as int) =~= found@);
        if count == 0 {
            Err(LocationError::NotFound)
        } else if count > 1 {
            Err(LocationError::Multiple)
        } else {
            Ok(at)
        }
    }
}

/// Where the project's paths come from: the files on disk, or a fixed list.
#[derive(Debug, Clone, PartialEq, Eq)]
pub enum PathWalker {
    GitAware,
    FakePaths(Vec<String>),
}

impl PathWalker {
    pub fn with_paths(paths: Vec<&str>) -> (r: Self)
        ensures
            r matches PathWalker::FakePaths(v) && views(v@) == paths@.map_values(|s: &str| s@),
    {
        let mut v: Vec<String> = Vec::new();
        let mut i: usize = 0;
        while i < paths.len()
            invariant
                i <= paths.len(),
                views(v@) == paths@.take(i as int).map_values(|s: &str| s@),
            decreases paths.len() - i,
        {
            let ghost before = views(v@);
            let p: &str = paths[i];
            v.push(p.to_owned());
            assert(views(v@) =~= before.push(paths@[i as int]@));
            assert(views(v@) =~= paths@.take(i + 1).map_values(|s: &str| s@));
            i += 1;
        }
        assert(paths@.take(paths.len() as int) =~= paths@);
        PathWalker::FakePaths(v)
    }
}

/// Lists the files under a directory, honouring git's ignore rules.
#[derive(Debug, Clone, PartialEq, Eq)]
pub struct GitAwarePathWalker {
    pub origin: String,
}

impl GitAwarePathWalker {
    pub fn new(origin: String) -> (r: Self)
        ensures
            r.origin == origin,
    {
        Self { origin }
    }
}

} // verus!
