//! The application state behind the commands of the user interface, and
//! the decisions those commands make around the Git engine.

use vstd::prelude::*;
use vstd::string::*;

use crate::persistence::{check_repo_path, checked_repo, PathProbe};
use crate::repo::RepoRegistry;
use crate::text::{first_line, first_line_of, string_texts};
use crate::types::{ApiResponse, BranchInfo, HeadInfo, ListBranchesResponse, StatusMatrix};
use crate::watch::WatchManager;

verus! {

/// The state shared by all commands: the open repositories and the
/// watched ones.
pub struct AppState {
    pub repo_registry: RepoRegistry,
    pub watch_manager: WatchManager,
}

impl AppState {
    /// A state with no open and no watched repository.
    pub fn new() -> (s: Self)
        ensures
            s.repo_registry@.len() == 0,
            s.watch_manager@.len() == 0,
    {
        AppState { repo_registry: RepoRegistry::new(), watch_manager: WatchManager::new() }
    }
}

// ---------------------------------------------------------------------------
// HEAD
// ---------------------------------------------------------------------------

/// What HEAD points at, as Git reports it.
#[derive(Debug, Clone)]
pub struct HeadFacts {
    /// whether HEAD is on a branch
    pub is_branch: bool,
    /// the short name of HEAD's reference, when readable
    pub shorthand: Option<String>,
    /// the id of the commit HEAD points at
    pub commit: String,
    /// the commit's message, when readable
    pub message: Option<String>,
}

/// The HEAD information of an open repository: its branch (none when
/// detached), its commit, and the first line of the commit's message.
pub open spec fn head_summary_matches(h: HeadInfo, f: HeadFacts) -> bool {
    &&& h.branch == (if f.is_branch {
        f.shorthand
    } else {
        None
    })
    &&& h.commit == f.commit
    &&& match (h.message, f.message) {
        (Some(m), Some(full)) => m@ == first_line(full@),
        (None, None) => true,
        _ => false,
    }
}

/// The HEAD information shown when a repository is opened or listed.
pub fn head_summary(facts: HeadFacts) -> (h: HeadInfo)
    ensures
        head_summary_matches(h, facts),
{
    let branch = if facts.is_branch {
        facts.shorthand
    } else {
        None
    };
    let message = match &facts.message {
        Some(m) => Some(first_line_of(m.as_str())),
        None => None,
    };
    HeadInfo { branch, commit: facts.commit, message }
}

/// The HEAD information the header shows: its branch (none when detached),
/// its commit, and the commit's whole message.
pub fn head_details(facts: HeadFacts) -> (h: HeadInfo)
    ensures
        h.branch == (if facts.is_branch {
            facts.shorthand
        } else {
            None
        }),
        h.commit == facts.commit,
        h.message == facts.message,
{
    let branch = if facts.is_branch {
        facts.shorthand
    } else {
        None
    };
    HeadInfo { branch, commit: facts.commit, message: facts.message }
}

// ---------------------------------------------------------------------------
// Branches
// ---------------------------------------------------------------------------

/// The branches with a readable name (valid UTF-8), with their flags, in
/// order.
pub open spec fn readable_branches(bs: Seq<(Option<String>, bool)>) -> Seq<(String, bool)>
    decreases bs.len(),
{
    if bs.len() == 0 {
        Seq::empty()
    } else {
        let rest = readable_branches(bs.drop_last());
        match bs.last().0 {
            Some(name) => rest.push((name, bs.last().1)),
            None => rest,
        }
    }
}

/// The local branches with readable names, in the order Git lists them, and
/// the one HEAD is on (the last one flagged, when several are). Each branch
/// comes with its name, when readable, and whether HEAD is on it.
pub fn list_branches(branches: Vec<(Option<String>, bool)>) -> (r: ListBranchesResponse)
    ensures
        ({
            let bs = readable_branches(branches@);
            &&& r.locals@.len() == bs.len()
            &&& forall|i: int|
                0 <= i < bs.len() ==> (#[trigger] r.locals@[i]).name == bs[i].0
                    && r.locals@[i].is_head == bs[i].1
            &&& match r.current {
                Some(c) => exists|i: int|
                    0 <= i < bs.len() && (#[trigger] bs[i]).1 && c@ == bs[i].0@ && forall|j: int|
                        i < j < bs.len() ==> !(#[trigger] bs[j]).1,
                None => forall|i: int| 0 <= i < bs.len() ==> !(#[trigger] bs[i]).1,
            }
        }),
{
    let ghost all = branches@;
    let n = branches.len();
    let mut locals: Vec<BranchInfo> = Vec::new();
    let mut current: Option<String> = None;
    let mut current_at: usize = 0;
    let mut rest = branches;
    let mut i: usize = 0;
    while i < n
        invariant
            n == all.len(),
            i <= n,
            rest@ == all.skip(i as int),
            locals@.len() == readable_branches(all.take(i as int)).len(),
            forall|k: int|
                0 <= k < locals@.len() ==> (#[trigger] locals@[k]).name == readable_branches(
                    all.take(i as int),
                )[k].0 && locals@[k].is_head == readable_branches(all.take(i as int))[k].1,
            match current {
                Some(c) => current_at < locals@.len() && readable_branches(all.take(i as int))[current_at as int].1
                    && c@ == readable_branches(all.take(i as int))[current_at as int].0@
                    && forall|j: int|
                    current_at < j < locals@.len() ==> !(#[trigger] readable_branches(
                        all.take(i as int),
                    )[j]).1,
                None => forall|j: int|
                    0 <= j < locals@.len() ==> !(#[trigger] readable_branches(all.take(i as int))[j]).1,
            },
        decreases n - i,
    {
        let ghost before = readable_branches(all.take(i as int));
        let (name, is_head) = rest.remove(0);
        proof {
            assert(name == all[i as int].0 && is_head == all[i as int].1);
            assert(rest@ =~= all.skip(i + 1));
            assert(all.take(i + 1).drop_last() =~= all.take(i as int));
        }
        match name {
            Some(name) => {
                if is_head {
                    current = Some(name.clone());
                    current_at = locals.len();
                }
                locals.push(BranchInfo { name, is_head });
            },
            None => {},
        }
        i = i + 1;
        proof {
            let after = readable_branches(all.take(i as int));
            assert forall|j: int| 0 <= j < before.len() implies after[j] == before[j] by {}
        }
    }
    proof {
        assert(all.take(n as int) =~= all);
    }
    ListBranchesResponse { current, locals }
}

/// Why a command around the Git engine is refused.
#[derive(Debug, Clone, Copy, PartialEq, Eq, Structural)]
pub enum BridgeError {
    /// The working tree has changes, so the branch cannot be switched.
    UncommittedChanges,
}

impl BridgeError {
    /// The error code of this refusal.
    pub fn code(&self) -> (c: String)
        ensures
            c@ == "UNCOMMITTED_CHANGES"@,
    {
        "UNCOMMITTED_CHANGES".to_owned()
    }

    /// The message of this refusal.
    pub fn message(&self) -> (m: String)
        ensures
            m@ == "You have uncommitted changes. Commit or stash before switching."@,
    {
        "You have uncommitted changes. Commit or stash before switching.".to_owned()
    }
}

/// Whether a branch may be checked out: only from a working tree without
/// any change.
pub fn check_switch(status: &StatusMatrix) -> (r: Result<(), BridgeError>)
    ensures
        r is Ok <==> status.entries@.len() == 0,
        r matches Err(e) ==> e == BridgeError::UncommittedChanges,
{
    if status.entries.len() == 0 {
        Ok(())
    } else {
        Err(BridgeError::UncommittedChanges)
    }
}

/// The reference of the local branch `name`.
pub fn branch_reference(name: &str) -> (r: String)
    ensures
        r@ == "refs/heads/"@ + name@,
{
    let mut r = "refs/heads/".to_owned();
    r.append(name);
    r
}

/// The author of a commit: the name and email given, when both are; none
/// otherwise (the repository's configuration then decides).
pub fn commit_author(name: Option<String>, email: Option<String>) -> (r: Option<(String, String)>)
    ensures
        match (name, email) {
            (Some(n), Some(e)) => r == Some((n, e)),
            _ => r is None,
        },
{
    match (name, email) {
        (Some(n), Some(e)) => Some((n, e)),
        _ => None,
    }
}

// ---------------------------------------------------------------------------
// Repository paths
// ---------------------------------------------------------------------------

/// A remembered repository path, checked on disk.
#[derive(Debug, Clone)]
pub struct ValidatedRepo {
    pub path: String,
    /// something exists at the path
    pub exists: bool,
    /// the path exists and holds a `.git` entry
    pub is_git_repo: bool,
}

/// Checks remembered repository paths on disk: one answer per path, in
/// order, with the path itself. For each, the disk is asked whether the
/// path exists and, only when it does, whether it holds a `.git` entry;
/// the flags are those answers. What is on disk decides them.
pub fn validate_repo_paths(paths: Vec<String>) -> (r: ApiResponse<Vec<ValidatedRepo>>)
    ensures
        r.ok,
        r.code is None,
        r.message is None,
        r.data matches Some(v) && v@.len() == paths@.len() && exists|
            probes: Seq<(PathProbe, Option<PathProbe>)>,
        |
            #![trigger probes.len()]
            probes.len() == v@.len() && forall|i: int|
                0 <= i < v@.len() ==> (#[trigger] v@[i]).path == paths@[i] && checked_repo(
                    paths@[i]@,
                    probes[i].0,
                    probes[i].1,
                    v@[i].is_git_repo,
                ) && v@[i].exists == probes[i].0.answer(),
{
    let mut validated: Vec<ValidatedRepo> = Vec::new();
    let ghost mut probes: Seq<(PathProbe, Option<PathProbe>)> = Seq::empty();
    let ghost all = paths@;
    let mut rest = paths;
    let mut i: usize = 0;
    let n = rest.len();
    while i < n
        invariant
            n == all.len(),
            i <= n,
            rest@ == all.skip(i as int),
            validated@.len() == i,
            probes.len() == i,
            forall|j: int|
                0 <= j < i ==> (#[trigger] validated@[j]).path == all[j] && checked_repo(
                    all[j]@,
                    probes[j].0,
                    probes[j].1,
                    validated@[j].is_git_repo,
                ) && validated@[j].exists == probes[j].0.answer(),
        decreases n - i,
    {
        let path = rest.remove(0);
        assert(path == all[i as int]);
        assert(rest@ =~= all.skip(i + 1));
        let (exists, is_git_repo, answers) = check_repo_path(&path);
        proof {
            probes = probes.push(answers@);
        }
        validated.push(ValidatedRepo { path, exists, is_git_repo });
        i = i + 1;
    }
    proof {
        let _ = probes.len();
    }
    ApiResponse::success(validated)
}

} // verus!
