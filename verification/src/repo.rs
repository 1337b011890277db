//! The registry of open repositories: each gets a random identifier, and a
//! path is registered at most once.

use std::sync::Arc;

use vstd::prelude::*;
use vstd::string::*;


verus! {

/// A Git repository handle of the `git2` crate, carried through opaquely.
#[verifier::external_type_specification]
#[verifier::external_body]
pub struct ExRepository(git2::Repository);

/// An error reported by `git2`, carried through opaquely.
#[verifier::external_type_specification]
#[verifier::external_body]
pub struct ExGitError(git2::Error);

/// An open repository.
#[derive(Clone)]
pub struct RepoMetadata {
    pub repo_id: String,
    pub path: String,
    pub repo: Arc<git2::Repository>,
}

/// What a request to open `path` calls for.
pub enum OpenStep {
    /// The path is already open: its entry is answered again, with no
    /// second handle opened.
    Reuse { repo_id: String, path: String, repo: Arc<git2::Repository> },
    /// The path is not open yet: open it, then `register` it.
    Open,
}

/// The open repositories, by identifier.
pub struct RepoRegistry {
    repos: Vec<RepoMetadata>,
}

/// Why a registry request fails.
#[derive(Debug, Clone)]
pub enum RegistryError {
    /// No repository has this identifier.
    NotFound { repo_id: String },
}

impl RegistryError {
    /// The message shown for this failure.
    pub fn message(&self) -> (m: String)
        ensures
            m@ == (match *self {
                RegistryError::NotFound { repo_id } => "Repository not found: "@ + repo_id@,
            }),
    {
        let mut m = String::new();
        match self {
            RegistryError::NotFound { repo_id } => {
                m.append("Repository not found: ");
                m.append(repo_id.as_str());
            },
        }
        m
    }
}

/// A fresh random identifier: `Uuid::new_v4` in its text form, which is
/// the hyphenated one of 36 characters. It is random, so nothing more is
/// stated of it.
#[verifier::external_body]
fn new_repo_id() -> (id: String)
    ensures
        id@.len() == 36,
{
    uuid::Uuid::new_v4().to_string()
}

/// `Arc::clone`: another handle to the same repository.
#[verifier::external_body]
fn share(repo: &Arc<git2::Repository>) -> (r: Arc<git2::Repository>)
    ensures
        r == *repo,
{
    Arc::clone(repo)
}

/// No two entries share an identifier or a path.
pub open spec fn distinct_entries(entries: Seq<RepoMetadata>) -> bool {
    forall|i: int, j: int|
        0 <= i < j < entries.len() ==> (#[trigger] entries[i]).repo_id@ != (#[trigger] entries[j]).repo_id@
            && entries[i].path@ != entries[j].path@
}

/// Whether some entry has identifier `id`.
pub open spec fn has_id(entries: Seq<RepoMetadata>, id: Seq<char>) -> bool {
    exists|i: int| 0 <= i < entries.len() && (#[trigger] entries[i]).repo_id@ == id
}

/// Whether some entry has path `path`.
pub open spec fn has_path(entries: Seq<RepoMetadata>, path: Seq<char>) -> bool {
    exists|i: int| 0 <= i < entries.len() && (#[trigger] entries[i]).path@ == path
}

impl View for RepoRegistry {
    type V = Seq<RepoMetadata>;

    closed spec fn view(&self) -> Seq<RepoMetadata> {
        self.repos@
    }
}

impl RepoRegistry {
    #[verifier::type_invariant]
    closed spec fn wf(self) -> bool {
        distinct_entries(self.repos@)
    }

    /// An empty registry.
    pub fn new() -> (r: Self)
        ensures
            r@.len() == 0,
            distinct_entries(r@),
    {
        RepoRegistry { repos: Vec::new() }
    }

    /// The open repository with this path, if any.
    pub fn lookup_path(&self, path: &str) -> (r: Option<&RepoMetadata>)
        ensures
            distinct_entries(self@),
            match r {
                Some(m) => m.path@ == path@ && self@.contains(*m),
                None => !has_path(self@, path@),
            },
    {
        proof {
            use_type_invariant(self);
        }
        let mut i: usize = 0;
        while i < self.repos.len()
            invariant
                i <= self.repos@.len(),
                distinct_entries(self.repos@),
                forall|j: int| 0 <= j < i ==> (#[trigger] self.repos@[j]).path@ != path@,
            decreases self.repos@.len() - i,
        {
            if self.repos[i].path.as_str().unicode_len() == path.unicode_len() && str_eq(
                self.repos[i].path.as_str(),
                path,
            ) {
                return Some(&self.repos[i]);
            }
            i = i + 1;
        }
        None
    }

    /// The first step of opening `path`: reuse the entry already
    /// registered for it, or open it afresh.
    pub fn open_or_reuse(&self, path: &str) -> (r: OpenStep)
        ensures
            match r {
                OpenStep::Reuse { repo_id, path: p, repo } => exists|i: int|
                    0 <= i < self@.len() && (#[trigger] self@[i]).path@ == path@
                        && repo_id@ == self@[i].repo_id@ && p@ == path@ && repo == self@[i].repo,
                OpenStep::Open => !has_path(self@, path@),
            },
    {
        match self.lookup_path(path) {
            Some(existing) => OpenStep::Reuse {
                repo_id: existing.repo_id.clone(),
                path: existing.path.clone(),
                repo: share(&existing.repo),
            },
            None => OpenStep::Open,
        }
    }

    /// Registers the repository opened at `path` under a fresh random
    /// identifier and returns the identifier. An entry that already had
    /// that identifier is replaced.
    pub fn register(&mut self, path: &str, repo: Arc<git2::Repository>) -> (id: String)
        requires
            !has_path(old(self)@, path@),
        ensures
            distinct_entries(final(self)@),
            final(self)@.len() > 0,
            final(self)@.last().repo_id == id,
            final(self)@.last().path@ == path@,
            final(self)@.last().repo == repo,
            id@.len() == 36,
            has_id(old(self)@, id@) ==> exists|i: int|
                0 <= i < old(self)@.len() && (#[trigger] old(self)@[i]).repo_id@ == id@
                    && final(self)@ == old(self)@.remove(i).push(final(self)@.last()),
            !has_id(old(self)@, id@) ==> final(self)@ == old(self)@.push(final(self)@.last()),
    {
        proof {
            use_type_invariant(&*self);
        }
        let id = new_repo_id();
        let entry = RepoMetadata { repo_id: id.clone(), path: path.to_owned(), repo };
        let mut repos: Vec<RepoMetadata> = Vec::new();
        std::mem::swap(&mut repos, &mut self.repos);
        let ghost old_repos = repos@;
        let found = position_in(&repos, id.as_str());
        match found {
            Some(i) => {
                repos.remove(i);
                proof {
                    assert forall|a: int, b: int|
                        0 <= a < b < repos@.len() implies (#[trigger] repos@[a]).repo_id@ != (
                        #[trigger] repos@[b]).repo_id@ && repos@[a].path@ != repos@[b].path@ by {
                        let a0 = if a < i { a } else { a + 1 };
                        let b0 = if b < i { b } else { b + 1 };
                        assert(repos@[a] == old_repos[a0]);
                        assert(repos@[b] == old_repos[b0]);
                    }
                    assert forall|a: int| 0 <= a < repos@.len() implies (
                    #[trigger] repos@[a]).repo_id@ != id@ by {
                        let a0 = if a < i { a } else { a + 1 };
                        assert(repos@[a] == old_repos[a0]);
                    }
                    assert forall|a: int| 0 <= a < repos@.len() implies (
                    #[trigger] repos@[a]).path@ != path@ by {
                        let a0 = if a < i { a } else { a + 1 };
                        assert(repos@[a] == old_repos[a0]);
                    }
                }
            },
            None => {},
        }
        repos.push(entry);
        self.repos = repos;
        id
    }

    /// The repository with identifier `repo_id`.
    pub fn get_repo(&self, repo_id: &str) -> (r: Result<Arc<git2::Repository>, RegistryError>)
        ensures
            match r {
                Ok(repo) => exists|i: int|
                    0 <= i < self@.len() && (#[trigger] self@[i]).repo_id@ == repo_id@
                        && self@[i].repo == repo,
                Err(RegistryError::NotFound { repo_id: id }) => id@ == repo_id@ && !has_id(
                    self@,
                    repo_id@,
                ),
            },
    {
        match position_in(&self.repos, repo_id) {
            Some(i) => {
                let repo = share(&self.repos[i].repo);
                assert(self@[i as int].repo_id@ == repo_id@ && self@[i as int].repo == repo);
                Ok(repo)
            },
            None => Err(RegistryError::NotFound { repo_id: repo_id.to_owned() }),
        }
    }

    /// Closes the repository with identifier `repo_id`: it leaves the
    /// registry and every other entry stays, in order.
    pub fn close_repo(&mut self, repo_id: &str) -> (r: Result<(), RegistryError>)
        ensures
            distinct_entries(final(self)@),
            match r {
                Ok(()) => exists|i: int|
                    0 <= i < old(self)@.len() && (#[trigger] old(self)@[i]).repo_id@ == repo_id@
                        && final(self)@ == old(self)@.remove(i),
                Err(RegistryError::NotFound { repo_id: id }) => id@ == repo_id@ && !has_id(
                    old(self)@,
                    repo_id@,
                ) && final(self)@ == old(self)@,
            },
    {
        proof {
            use_type_invariant(&*self);
        }
        match position_in(&self.repos, repo_id) {
            Some(i) => {
                let mut repos: Vec<RepoMetadata> = Vec::new();
                std::mem::swap(&mut repos, &mut self.repos);
                let ghost old_repos = repos@;
                repos.remove(i);
                proof {
                    assert forall|a: int, b: int|
                        0 <= a < b < repos@.len() implies (#[trigger] repos@[a]).repo_id@ != (
                        #[trigger] repos@[b]).repo_id@ && repos@[a].path@ != repos@[b].path@ by {
                        let a0 = if a < i { a } else { a + 1 };
                        let b0 = if b < i { b } else { b + 1 };
                        assert(repos@[a] == old_repos[a0]);
                        assert(repos@[b] == old_repos[b0]);
                    }
                }
                self.repos = repos;
                assert(old(self)@[i as int].repo_id@ == repo_id@ && self@ == old(self)@.remove(
                    i as int,
                ));
                Ok(())
            },
            None => Err(RegistryError::NotFound { repo_id: repo_id.to_owned() }),
        }
    }

    /// The open repositories.
    pub fn repos(&self) -> (r: &[RepoMetadata])
        ensures
            r@ == self@,
    {
        self.repos.as_slice()
    }
}

/// The position of the entry with identifier `repo_id` in `repos`, if any.
fn position_in(repos: &Vec<RepoMetadata>, repo_id: &str) -> (r: Option<usize>)
    ensures
        match r {
            Some(i) => i < repos@.len() && repos@[i as int].repo_id@ == repo_id@,
            None => !has_id(repos@, repo_id@),
        },
{
    let mut i: usize = 0;
    while i < repos.len()
        invariant
            i <= repos@.len(),
            forall|j: int| 0 <= j < i ==> (#[trigger] repos@[j]).repo_id@ != repo_id@,
        decreases repos@.len() - i,
    {
        if str_eq(repos[i].repo_id.as_str(), repo_id) {
            return Some(i);
        }
        i = i + 1;
    }
    None
}

/// Whether two strings are equal.
pub fn str_eq(a: &str, b: &str) -> (r: bool)
    ensures
        r == (a@ == b@),
{
    let a_owned = a.to_owned();
    let b_owned = b.to_owned();
    a_owned == b_owned
}

// ---------------------------------------------------------------------------
// Laws
// ---------------------------------------------------------------------------

/// A path names one open repository: once `path` is registered under `id`
/// (the last entry), every entry found for `path` has identifier `id`, so
/// opening the same path again finds the identifier it was first given.
pub proof fn lemma_path_keeps_its_id(entries: Seq<RepoMetadata>, path: Seq<char>, m: RepoMetadata)
    requires
        distinct_entries(entries),
        entries.len() > 0,
        entries.last().path@ == path,
        entries.contains(m),
        m.path@ == path,
    ensures
        m.repo_id == entries.last().repo_id,
{
    let k = choose|k: int| 0 <= k < entries.len() && entries[k] == m;
    if k != entries.len() - 1 {
        assert(entries[k].path@ != entries[entries.len() - 1].path@);
    }
}

/// A closed repository is gone: after its entry leaves the registry no
/// entry has its identifier, and every other entry is still there.
pub proof fn lemma_closed_repo_gone(entries: Seq<RepoMetadata>, i: int)
    requires
        distinct_entries(entries),
        0 <= i < entries.len(),
    ensures
        !has_id(entries.remove(i), entries[i].repo_id@),
        distinct_entries(entries.remove(i)),
        forall|j: int| 0 <= j < entries.len() && j != i ==> entries.remove(i).contains(#[trigger] entries[j]),
{
    let rest = entries.remove(i);
    assert forall|k: int| 0 <= k < rest.len() implies (#[trigger] rest[k]).repo_id@ != entries[i].repo_id@ by {
        let k0 = if k < i { k } else { k + 1 };
        assert(rest[k] == entries[k0]);
    }
    assert forall|a: int, b: int| 0 <= a < b < rest.len() implies (#[trigger] rest[a]).repo_id@ != (
    #[trigger] rest[b]).repo_id@ && rest[a].path@ != rest[b].path@ by {
        let a0 = if a < i { a } else { a + 1 };
        let b0 = if b < i { b } else { b + 1 };
        assert(rest[a] == entries[a0] && rest[b] == entries[b0]);
    }
    assert forall|j: int| 0 <= j < entries.len() && j != i implies rest.contains(#[trigger] entries[j]) by {
        let j1 = if j < i { j } else { j - 1 };
        assert(rest[j1] == entries[j]);
    }
}

} // verus!
