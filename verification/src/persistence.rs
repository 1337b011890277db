//! The workspace (open repositories) and settings that persist across
//! restarts, with their schema versions.

use vstd::prelude::*;
use vstd::string::*;

verus! {

/// The current schema version of the workspace store.
pub const WORKSPACE_VERSION: u32 = 1;

/// The current schema version of the settings store.
pub const SETTINGS_VERSION: u32 = 1;

/// The repositories that were open, and the one that was active.
#[derive(Debug, Clone)]
pub struct WorkspaceState {
    pub version: u32,
    pub repos: Vec<RepoEntry>,
    pub active_repo_path: Option<String>,
}

/// A repository of the workspace.
#[derive(Debug, Clone)]
pub struct RepoEntry {
    pub path: String,
    /// Unix time of the last opening
    pub last_opened: Option<i64>,
}

impl Default for WorkspaceState {
    fn default() -> (r: Self)
        ensures
            r.version == WORKSPACE_VERSION,
            r.repos@.len() == 0,
            r.active_repo_path is None,
    {
        WorkspaceState { version: WORKSPACE_VERSION, repos: Vec::new(), active_repo_path: None }
    }
}

/// The user's preferences.
#[derive(Debug, Clone)]
pub struct SettingsState {
    pub version: u32,
    /// `"light"`, `"dark"` or `"system"`
    pub theme: String,
    pub show_line_numbers: bool,
    pub context_lines: ContextLines,
    pub compact_mode: bool,
}

/// How many context lines diffs show: a number, or `"all"`.
#[derive(Debug, Clone)]
pub enum ContextLines {
    Number(u32),
    All(String),
}

impl Default for SettingsState {
    fn default() -> (r: Self)
        ensures
            r.version == SETTINGS_VERSION,
            r.theme@ == "system"@,
            !r.show_line_numbers,
            r.context_lines == ContextLines::Number(3),
            !r.compact_mode,
    {
        SettingsState {
            version: SETTINGS_VERSION,
            theme: "system".to_owned(),
            show_line_numbers: false,
            context_lines: ContextLines::Number(3),
            compact_mode: false,
        }
    }
}

// ---------------------------------------------------------------------------
// Validating the workspace
// ---------------------------------------------------------------------------

/// The repositories whose flag in `valid` is set, in order.
pub open spec fn kept_repos(repos: Seq<RepoEntry>, valid: Seq<bool>, n: int) -> Seq<RepoEntry>
    decreases n,
{
    if n <= 0 {
        Seq::empty()
    } else if valid[n - 1] {
        kept_repos(repos, valid, n - 1).push(repos[n - 1])
    } else {
        kept_repos(repos, valid, n - 1)
    }
}

/// The paths of the repositories whose flag in `valid` is clear, in order.
pub open spec fn missing_paths(repos: Seq<RepoEntry>, valid: Seq<bool>, n: int) -> Seq<Seq<char>>
    decreases n,
{
    if n <= 0 {
        Seq::empty()
    } else if !valid[n - 1] {
        missing_paths(repos, valid, n - 1).push(repos[n - 1].path@)
    } else {
        missing_paths(repos, valid, n - 1)
    }
}

/// Whether some repository has path `path`.
pub open spec fn has_repo_path(repos: Seq<RepoEntry>, path: Seq<char>) -> bool {
    exists|i: int| 0 <= i < repos.len() && (#[trigger] repos[i]).path@ == path
}

/// The workspace after dropping the repositories flagged invalid: the
/// others stay, in order, and the active repository is cleared when it is
/// no longer among them.
pub open spec fn retained(old: WorkspaceState, new: WorkspaceState, valid: Seq<bool>) -> bool {
    let n = old.repos@.len() as int;
    &&& new.version == old.version
    &&& new.repos@ == kept_repos(old.repos@, valid, n)
    &&& new.active_repo_path == match old.active_repo_path {
        Some(a) => if has_repo_path(kept_repos(old.repos@, valid, n), a@) {
            Some(a)
        } else {
            None
        },
        None => None,
    }
}

/// The disk's answer about one path: the path asked about, and whether
/// something exists there.
pub struct PathProbe {
    path: String,
    found: bool,
}

impl PathProbe {
    /// The path that was asked about.
    pub closed spec fn probed(&self) -> Seq<char> {
        self.path@
    }

    /// Whether something exists at the path, as the disk answered.
    pub closed spec fn answer(&self) -> bool {
        self.found
    }

    /// Whether something exists at the path, as the disk answered.
    pub fn found(&self) -> (b: bool)
        ensures
            b == self.answer(),
    {
        self.found
    }
}

/// `Path::exists`: asks the disk whether something exists at `path`. What
/// is on disk decides the answer, so nothing is stated of it; the probe
/// keeps the path it asked about.
#[verifier::external_body]
pub(crate) fn probe_path(path: &str) -> (p: PathProbe)
    ensures
        p.probed() == path@,
{
    PathProbe { path: path.to_owned(), found: std::path::Path::new(path).exists() }
}

/// The disk's answers for a repository at `path`, and the verdict `valid`
/// drawn from them: the path itself is asked about; only when something
/// is there, its `.git` entry is asked about too; the repository is valid
/// when both answers are yes.
pub open spec fn checked_repo(path: Seq<char>, first: PathProbe, second: Option<PathProbe>, valid: bool) -> bool {
    &&& first.probed() == path
    &&& (second is Some <==> first.answer())
    &&& (second matches Some(q) ==> q.probed() == git_dir_path(path))
    &&& valid == (second matches Some(q) && q.answer())
}

/// Asks the disk about the repository at `path`: whether it exists, and
/// whether it is a Git repository (it holds a `.git` entry).
pub(crate) fn check_repo_path(path: &String) -> (r: (bool, bool, Ghost<(PathProbe, Option<PathProbe>)>))
    ensures
        checked_repo(path@, r.2@.0, r.2@.1, r.1),
        r.0 == r.2@.0.answer(),
{
    let first = probe_path(path.as_str());
    if first.found() {
        let second = probe_path(git_dir_of(path).as_str());
        let valid = second.found();
        (true, valid, Ghost((first, Some(second))))
    } else {
        (false, false, Ghost((first, None)))
    }
}

/// `path` joined with the relative component `.git` under the `/`
/// separator rule of `Path::join`.
pub open spec fn git_dir_path(path: Seq<char>) -> Seq<char> {
    if path.len() == 0 {
        ".git"@
    } else if path.last() == '/' {
        path + ".git"@
    } else {
        path + "/.git"@
    }
}

pub(crate) fn git_dir_of(path: &String) -> (r: String)
    ensures
        r@ == git_dir_path(path@),
{
    let st = path.as_str();
    let n = st.unicode_len();
    if n == 0 {
        return ".git".to_owned();
    }
    let mut r = path.clone();
    if st.get_char(n - 1) == '/' {
        r.append(".git");
    } else {
        r.append("/.git");
    }
    r
}

/// The schema version after migrating from `version` to `current`: an
/// older version becomes the current one, a newer one is kept.
pub open spec fn migrated_version(version: u32, current: u32) -> u32 {
    if version < current {
        current
    } else {
        version
    }
}

/// Migration settles: a migrated state is at least at the current version,
/// and migrating it again changes nothing.
pub proof fn lemma_migration_settles(version: u32, current: u32)
    ensures
        migrated_version(version, current) >= current,
        migrated_version(migrated_version(version, current), current) == migrated_version(
            version,
            current,
        ),
        version >= current ==> migrated_version(version, current) == version,
{
}

/// Validation splits the repositories in two: each is either kept or
/// reported missing, so the kept ones and the missing paths together
/// number the repositories checked.
pub proof fn lemma_validation_partitions(repos: Seq<RepoEntry>, valid: Seq<bool>, n: int)
    requires
        0 <= n <= repos.len(),
        n <= valid.len(),
    ensures
        kept_repos(repos, valid, n).len() + missing_paths(repos, valid, n).len() == n,
    decreases n,
{
    if n > 0 {
        lemma_validation_partitions(repos, valid, n - 1);
    }
}

/// Whether every answer among `probes` is what `on_disk` says of the path
/// asked about: the disk answered as one fixed filesystem.
pub open spec fn answers_from(
    probes: Seq<(PathProbe, Option<PathProbe>)>,
    on_disk: spec_fn(Seq<char>) -> bool,
) -> bool {
    forall|i: int|
        0 <= i < probes.len() ==> {
            &&& (#[trigger] probes[i]).0.answer() == on_disk(probes[i].0.probed())
            &&& (probes[i].1 matches Some(q) ==> q.answer() == on_disk(q.probed()))
        }
}

/// Whether `new` and `valid` are what a validation of `old` gives, the
/// disk having answered `probes`.
pub open spec fn validated(
    old: WorkspaceState,
    new: WorkspaceState,
    valid: Seq<bool>,
    probes: Seq<(PathProbe, Option<PathProbe>)>,
) -> bool {
    &&& valid.len() == old.repos@.len()
    &&& probes.len() == valid.len()
    &&& forall|i: int|
        0 <= i < valid.len() ==> checked_repo(
            old.repos@[i].path@,
            #[trigger] probes[i].0,
            probes[i].1,
            valid[i],
        )
    &&& retained(old, new, valid)
}

/// Every repository kept by a validation answered by `on_disk` is one
/// that `on_disk` holds, with its `.git` entry.
proof fn lemma_kept_are_on_disk(
    repos: Seq<RepoEntry>,
    valid: Seq<bool>,
    on_disk: spec_fn(Seq<char>) -> bool,
    n: int,
)
    requires
        0 <= n <= repos.len(),
        n <= valid.len(),
        forall|i: int|
            0 <= i < n ==> valid[i] == (on_disk((#[trigger] repos[i]).path@) && on_disk(
                git_dir_path(repos[i].path@),
            )),
    ensures
        forall|j: int|
            0 <= j < kept_repos(repos, valid, n).len() ==> on_disk(
                (#[trigger] kept_repos(repos, valid, n)[j]).path@,
            ) && on_disk(git_dir_path(kept_repos(repos, valid, n)[j].path@)),
    decreases n,
{
    if n > 0 {
        lemma_kept_are_on_disk(repos, valid, on_disk, n - 1);
        let _ = repos[n - 1];
    }
}

/// Where every flag is set, every repository is kept and none is missing.
proof fn lemma_all_valid_keeps_all(repos: Seq<RepoEntry>, valid: Seq<bool>, n: int)
    requires
        0 <= n <= repos.len(),
        n <= valid.len(),
        forall|i: int| 0 <= i < n ==> #[trigger] valid[i],
    ensures
        kept_repos(repos, valid, n) == repos.take(n),
        missing_paths(repos, valid, n).len() == 0,
    decreases n,
{
    if n > 0 {
        lemma_all_valid_keeps_all(repos, valid, n - 1);
        assert(repos.take(n) =~= repos.take(n - 1).push(repos[n - 1]));
    } else {
        assert(repos.take(0) =~= Seq::<RepoEntry>::empty());
    }
}

/// The verdict of `checked_repo` where the disk answers as `on_disk`.
proof fn lemma_checked_on_disk(
    path: Seq<char>,
    first: PathProbe,
    second: Option<PathProbe>,
    valid: bool,
    on_disk: spec_fn(Seq<char>) -> bool,
)
    requires
        checked_repo(path, first, second, valid),
        first.answer() == on_disk(first.probed()),
        second matches Some(q) ==> q.answer() == on_disk(q.probed()),
    ensures
        valid == (on_disk(path) && on_disk(git_dir_path(path))),
{
}

/// Validation settles: where the disk does not change between two
/// validations, the second finds no repository missing and leaves the
/// workspace as the first left it.
pub proof fn lemma_validation_settles(
    s0: WorkspaceState,
    s1: WorkspaceState,
    s2: WorkspaceState,
    valid1: Seq<bool>,
    probes1: Seq<(PathProbe, Option<PathProbe>)>,
    valid2: Seq<bool>,
    probes2: Seq<(PathProbe, Option<PathProbe>)>,
    on_disk: spec_fn(Seq<char>) -> bool,
)
    requires
        validated(s0, s1, valid1, probes1),
        validated(s1, s2, valid2, probes2),
        answers_from(probes1, on_disk),
        answers_from(probes2, on_disk),
    ensures
        missing_paths(s1.repos@, valid2, valid2.len() as int).len() == 0,
        s2.version == s1.version,
        s2.repos@ == s1.repos@,
        s2.active_repo_path == s1.active_repo_path,
{
    let r0 = s0.repos@;
    let r1 = s1.repos@;
    assert forall|i: int| 0 <= i < r0.len() implies valid1[i] == (on_disk((#[trigger] r0[i]).path@)
        && on_disk(git_dir_path(r0[i].path@))) by {
        lemma_checked_on_disk(r0[i].path@, probes1[i].0, probes1[i].1, valid1[i], on_disk);
    }
    lemma_kept_are_on_disk(r0, valid1, on_disk, r0.len() as int);
    assert forall|j: int| 0 <= j < r1.len() implies #[trigger] valid2[j] by {
        lemma_checked_on_disk(r1[j].path@, probes2[j].0, probes2[j].1, valid2[j], on_disk);
        assert(r1[j] == kept_repos(r0, valid1, r0.len() as int)[j]);
    }
    lemma_all_valid_keeps_all(r1, valid2, r1.len() as int);
    assert(r1.take(r1.len() as int) =~= r1);
}

impl WorkspaceState {
    /// Brings a state stored by an older schema up to the current version.
    pub fn migrate(self) -> (r: Self)
        ensures
            r.version == migrated_version(self.version, WORKSPACE_VERSION),
            r.repos == self.repos,
            r.active_repo_path == self.active_repo_path,
    {
        let mut s = self;
        if s.version < WORKSPACE_VERSION {
            s.version = WORKSPACE_VERSION;
        }
        s
    }

    /// Drops the repositories whose flag in `valid` is clear and returns
    /// their paths, in order; clears the active repository when it is not
    /// among those that remain.
    pub fn retain_valid(&mut self, valid: &Vec<bool>) -> (missing: Vec<String>)
        requires
            valid@.len() == old(self).repos@.len(),
        ensures
            retained(*old(self), *final(self), valid@),
            missing@.len() == missing_paths(old(self).repos@, valid@, valid@.len() as int).len(),
            forall|i: int|
                0 <= i < missing@.len() ==> (#[trigger] missing@[i])@ == missing_paths(
                    old(self).repos@,
                    valid@,
                    valid@.len() as int,
                )[i],
    {
        let ghost repos = self.repos@;
        let mut kept: Vec<RepoEntry> = Vec::new();
        let mut missing: Vec<String> = Vec::new();
        let mut rest: Vec<RepoEntry> = Vec::new();
        std::mem::swap(&mut rest, &mut self.repos);
        let mut i: usize = 0;
        while i < valid.len()
            invariant
                valid@.len() == repos.len(),
                i <= repos.len(),
                rest@ == repos.skip(i as int),
                kept@ == kept_repos(repos, valid@, i as int),
                missing@.len() == missing_paths(repos, valid@, i as int).len(),
                forall|j: int|
                    0 <= j < missing@.len() ==> (#[trigger] missing@[j])@ == missing_paths(
                        repos,
                        valid@,
                        i as int,
                    )[j],
            decreases repos.len() - i,
        {
            let ghost before = rest@;
            let entry = rest.remove(0);
            proof {
                assert(entry == repos[i as int]);
                assert(rest@ =~= repos.skip(i + 1));
            }
            if valid[i] {
                kept.push(entry);
            } else {
                missing.push(entry.path.clone());
                proof {
                    let m = missing_paths(repos, valid@, i + 1);
                    assert(m == missing_paths(repos, valid@, i as int).push(repos[i as int].path@));
                }
            }
            i = i + 1;
        }
        self.repos = kept;
        let mut clear = false;
        match &self.active_repo_path {
            Some(active) => {
                let mut found = false;
                let mut k: usize = 0;
                while k < self.repos.len()
                    invariant
                        k <= self.repos@.len(),
                        found <==> exists|j: int|
                            0 <= j < k && (#[trigger] self.repos@[j]).path@ == active@,
                    decreases self.repos@.len() - k,
                {
                    if self.repos[k].path == *active {
                        found = true;
                    }
                    k = k + 1;
                }
                clear = !found;
            },
            None => {},
        }
        if clear {
            self.active_repo_path = None;
        }
        missing
    }

    /// Drops the repositories whose path does not exist or does not hold a
    /// `.git` entry, and returns their paths, in order; clears the active
    /// repository when it is not among those that remain. What is on disk
    /// decides which repositories are valid.
    pub fn validate_repos(&mut self) -> (missing: Vec<String>)
        ensures
            exists|valid: Seq<bool>, probes: Seq<(PathProbe, Option<PathProbe>)>|
                #[trigger] validated(*old(self), *final(self), valid, probes)
                    && missing@.len() == missing_paths(
                    old(self).repos@,
                    valid,
                    valid.len() as int,
                ).len() && forall|i: int|
                    0 <= i < missing@.len() ==> (#[trigger] missing@[i])@ == missing_paths(
                        old(self).repos@,
                        valid,
                        valid.len() as int,
                    )[i],
    {
        let mut valid: Vec<bool> = Vec::new();
        let ghost mut probes: Seq<(PathProbe, Option<PathProbe>)> = Seq::empty();
        let mut i: usize = 0;
        while i < self.repos.len()
            invariant
                i <= self.repos@.len(),
                valid@.len() == i,
                probes.len() == i,
                forall|j: int|
                    0 <= j < i ==> checked_repo(
                        self.repos@[j].path@,
                        #[trigger] probes[j].0,
                        probes[j].1,
                        valid@[j],
                    ),
            decreases self.repos@.len() - i,
        {
            let (_, ok, answers) = check_repo_path(&self.repos[i].path);
            valid.push(ok);
            proof {
                probes = probes.push(answers@);
            }
            i = i + 1;
        }
        let missing = self.retain_valid(&valid);
        assert(validated(*old(self), *self, valid@, probes));
        missing
    }
}

impl SettingsState {
    /// Brings settings stored by an older schema up to the current version.
    pub fn migrate(self) -> (r: Self)
        ensures
            r.version == migrated_version(self.version, SETTINGS_VERSION),
            r.theme == self.theme,
            r.show_line_numbers == self.show_line_numbers,
            r.context_lines == self.context_lines,
            r.compact_mode == self.compact_mode,
    {
        let mut s = self;
        if s.version < SETTINGS_VERSION {
            s.version = SETTINGS_VERSION;
        }
        s
    }
}

} // verus!
