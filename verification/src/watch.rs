//! Filesystem watching: which repositories are watched, which changed paths
//! are reported, and how bursts of changes are gathered into one event.

use vstd::prelude::*;
use vstd::string::*;

use crate::paths::{has_component, lemma_segments_join, lemma_segments_of_name, segments};
use crate::repo::str_eq;
use crate::types::WatchEvent;

verus! {

/// A filesystem watcher of the `notify` crate, carried through opaquely.
#[verifier::external_type_specification]
#[verifier::external_body]
pub struct ExWatcher(notify::RecommendedWatcher);

/// A watched repository.
pub struct RepoWatcher {
    pub watcher: notify::RecommendedWatcher,
    pub repo_id: String,
    pub repo_path: String,
}

/// The watched repositories, by identifier.
pub struct WatchManager {
    watchers: Vec<RepoWatcher>,
}

/// Why a watch request fails.
#[derive(Debug, Clone)]
pub enum WatchError {
    /// No watcher exists for this repository.
    NotWatched { repo_id: String },
}

impl WatchError {
    /// The message shown for this failure.
    pub fn message(&self) -> (m: String)
        ensures
            m@ == (match *self {
                WatchError::NotWatched { repo_id } => "Watcher not found for repo: "@ + repo_id@,
            }),
    {
        let mut m = String::new();
        match self {
            WatchError::NotWatched { repo_id } => {
                m.append("Watcher not found for repo: ");
                m.append(repo_id.as_str());
            },
        }
        m
    }
}

/// The identifiers of the watchers, in order.
pub open spec fn watched_ids(ws: Seq<RepoWatcher>) -> Seq<Seq<char>> {
    ws.map_values(|w: RepoWatcher| w.repo_id@)
}

impl View for WatchManager {
    type V = Seq<Seq<char>>;

    open spec fn view(&self) -> Seq<Seq<char>> {
        watched_ids(self.entries())
    }
}

impl WatchManager {
    /// The watchers held, in order: each keeps its repository's events
    /// coming for as long as it is held.
    pub closed spec fn entries(&self) -> Seq<RepoWatcher> {
        self.watchers@
    }

    #[verifier::type_invariant]
    closed spec fn wf(self) -> bool {
        watched_ids(self.watchers@).no_duplicates()
    }

    /// A manager that watches nothing.
    pub fn new() -> (r: Self)
        ensures
            r.entries().len() == 0,
            r@.len() == 0,
    {
        WatchManager { watchers: Vec::new() }
    }

    /// Whether repository `repo_id` is watched.
    pub fn is_watched(&self, repo_id: &str) -> (b: bool)
        ensures
            b == self@.contains(repo_id@),
    {
        let mut i: usize = 0;
        while i < self.watchers.len()
            invariant
                i <= self.watchers@.len(),
                forall|j: int| 0 <= j < i ==> (#[trigger] self.watchers@[j]).repo_id@ != repo_id@,
            decreases self.watchers@.len() - i,
        {
            if str_eq(self.watchers[i].repo_id.as_str(), repo_id) {
                assert(watched_ids(self.watchers@)[i as int] == repo_id@);
                return true;
            }
            i = i + 1;
        }
        assert forall|j: int| 0 <= j < self@.len() implies self@[j] != repo_id@ by {
            assert(self@[j] == self.watchers@[j].repo_id@);
        }
        false
    }

    /// Adds the watcher of repository `repo_id`, unless that repository is
    /// already watched, in which case nothing changes and the new watcher is
    /// dropped.
    pub fn add_watcher(&mut self, repo_id: String, repo_path: String, watcher: notify::RecommendedWatcher)
        ensures
            old(self)@.contains(repo_id@) ==> final(self).entries() == old(self).entries(),
            !old(self)@.contains(repo_id@) ==> final(self).entries() == old(self).entries().push(
                (RepoWatcher { watcher, repo_id, repo_path }),
            ),
            old(self)@.contains(repo_id@) ==> final(self)@ == old(self)@,
            !old(self)@.contains(repo_id@) ==> final(self)@ == old(self)@.push(repo_id@),
    {
        proof {
            use_type_invariant(&*self);
        }
        if self.is_watched(repo_id.as_str()) {
            return;
        }
        let ghost old_ws = self.watchers@;
        let mut ws: Vec<RepoWatcher> = Vec::new();
        std::mem::swap(&mut ws, &mut self.watchers);
        let ghost id = repo_id@;
        ws.push(RepoWatcher { watcher, repo_id, repo_path });
        proof {
            assert(watched_ids(ws@) =~= watched_ids(old_ws).push(id));
            assert forall|a: int, b: int|
                0 <= a < ws@.len() && 0 <= b < ws@.len() && a != b implies watched_ids(ws@)[a]
                != watched_ids(ws@)[b] by {
                if a < old_ws.len() && b < old_ws.len() {
                    assert(watched_ids(ws@)[a] == watched_ids(old_ws)[a]);
                    assert(watched_ids(ws@)[b] == watched_ids(old_ws)[b]);
                }
            }
        }
        self.watchers = ws;
    }

    /// Stops watching repository `repo_id`.
    pub fn unwatch_repo(&mut self, repo_id: &str) -> (r: Result<(), WatchError>)
        ensures
            match r {
                Ok(()) => exists|i: int|
                    0 <= i < old(self)@.len() && old(self)@[i] == repo_id@ && final(self)@
                        == old(self)@.remove(i) && final(self).entries() == old(
                        self,
                    ).entries().remove(i),
                Err(WatchError::NotWatched { repo_id: id }) => id@ == repo_id@ && !old(
                    self,
                )@.contains(repo_id@) && final(self).entries() == old(self).entries(),
            },
    {
        proof {
            use_type_invariant(&*self);
        }
        let mut i: usize = 0;
        while i < self.watchers.len()
            invariant
                i <= self.watchers@.len(),
                self.watchers@ == old(self).watchers@,
                watched_ids(self.watchers@).no_duplicates(),
                forall|j: int| 0 <= j < i ==> (#[trigger] self.watchers@[j]).repo_id@ != repo_id@,
            decreases self.watchers@.len() - i,
        {
            if str_eq(self.watchers[i].repo_id.as_str(), repo_id) {
                let ghost old_ws = self.watchers@;
                let mut ws: Vec<RepoWatcher> = Vec::new();
                std::mem::swap(&mut ws, &mut self.watchers);
                ws.remove(i);
                proof {
                    assert(watched_ids(ws@) =~= watched_ids(old_ws).remove(i as int));
                    assert(watched_ids(old_ws)[i as int] == repo_id@);
                    let ids = watched_ids(old_ws).remove(i as int);
                    assert forall|a: int, b: int|
                        0 <= a < ids.len() && 0 <= b < ids.len() && a != b implies ids[a]
                        != ids[b] by {
                        let a0 = if a < i { a } else { a + 1 };
                        let b0 = if b < i { b } else { b + 1 };
                        assert(ids[a] == watched_ids(old_ws)[a0]);
                        assert(ids[b] == watched_ids(old_ws)[b0]);
                    }
                }
                self.watchers = ws;
                assert(old(self)@[i as int] == repo_id@ && self@ == old(self)@.remove(i as int));
                return Ok(());
            }
            i = i + 1;
        }
        assert forall|j: int| 0 <= j < self@.len() implies self@[j] != repo_id@ by {
            assert(self@[j] == self.watchers@[j].repo_id@);
        }
        Err(WatchError::NotWatched { repo_id: repo_id.to_owned() })
    }

    /// The identifiers of the watched repositories.
    pub fn list_watched(&self) -> (ids: Vec<String>)
        ensures
            ids@.len() == self@.len(),
            forall|i: int| 0 <= i < ids@.len() ==> (#[trigger] ids@[i])@ == self@[i],
    {
        let mut ids: Vec<String> = Vec::new();
        let mut i: usize = 0;
        while i < self.watchers.len()
            invariant
                i <= self.watchers@.len(),
                ids@.len() == i,
                forall|j: int| 0 <= j < i ==> (#[trigger] ids@[j])@ == self.watchers@[j].repo_id@,
            decreases self.watchers@.len() - i,
        {
            ids.push(self.watchers[i].repo_id.clone());
            i = i + 1;
        }
        ids
    }
}

// ---------------------------------------------------------------------------
// Changed paths
// ---------------------------------------------------------------------------

/// The kind of a filesystem change.
#[derive(Debug, Clone, Copy, PartialEq, Eq, Structural)]
pub enum ChangeKind {
    Create,
    Modify,
    Remove,
    Other,
}

/// The event type reported for a change: a creation, a modification or a
/// removal, and a modification for anything else.
pub open spec fn change_name(kind: ChangeKind) -> Seq<char> {
    match kind {
        ChangeKind::Create => "created"@,
        ChangeKind::Modify => "modified"@,
        ChangeKind::Remove => "deleted"@,
        ChangeKind::Other => "modified"@,
    }
}

/// The event type reported for a change of this kind.
pub fn event_type_name(kind: ChangeKind) -> (s: String)
    ensures
        s@ == change_name(kind),
{
    match kind {
        ChangeKind::Create => "created".to_owned(),
        ChangeKind::Modify => "modified".to_owned(),
        ChangeKind::Remove => "deleted".to_owned(),
        ChangeKind::Other => "modified".to_owned(),
    }
}

/// Whether some component of `path` is `.git`: changes inside the Git
/// directory are not reported.
pub open spec fn inside_git_dir(path: Seq<char>) -> bool {
    segments(path).contains(".git"@)
}

/// Whether some component of `path` is `.git`.
pub fn has_git_component(path: &str) -> (b: bool)
    ensures
        b == inside_git_dir(path@),
{
    has_component(path, ".git")
}

// ---------------------------------------------------------------------------
// Gathering bursts of changes
// ---------------------------------------------------------------------------

/// How long a repository must stay quiet before its gathered changes are
/// reported, in milliseconds.
pub const QUIET_PERIOD_MS: u64 = 200;

/// Whether a repository whose last change was gathered at `last_update`
/// has been quiet long enough at `now` to report its changes.
pub open spec fn quiet_at(last_update: u64, now: u64) -> bool {
    now >= last_update && now - last_update >= QUIET_PERIOD_MS
}

/// The changes of one repository gathered since its last report.
pub struct PendingEvent {
    /// the changed paths, each once
    pub paths: Vec<String>,
    /// the type of the first change gathered
    pub event_type: String,
    /// when the last change was gathered, in milliseconds
    pub last_update: u64,
}

/// A sequence with `x` pushed contains `t` exactly when the sequence does
/// or `t` is `x`.
pub proof fn lemma_push_contains<A>(s: Seq<A>, x: A, t: A)
    ensures
        s.push(x).contains(t) <==> (s.contains(t) || t == x),
{
    if s.contains(t) {
        let j = choose|j: int| 0 <= j < s.len() && s[j] == t;
        assert(s.push(x)[j] == t);
    }
    if t == x {
        assert(s.push(x)[s.len() as int] == t);
    }
    if s.push(x).contains(t) {
        let j = choose|j: int| 0 <= j < s.push(x).len() && s.push(x)[j] == t;
        if j < s.len() {
            assert(s[j] == t);
        }
    }
}

/// The texts of some strings.
pub open spec fn texts(v: Seq<String>) -> Seq<Seq<char>> {
    v.map_values(|s: String| s@)
}

impl PendingEvent {
    /// No path is gathered twice.
    pub open spec fn wf(&self) -> bool {
        texts(self.paths@).no_duplicates()
    }

    /// The gathered changes start with a change of kind `kind` at `now`.
    pub fn new(kind: ChangeKind, now: u64) -> (p: Self)
        ensures
            p.wf(),
            p.paths@.len() == 0,
            p.event_type@ == change_name(kind),
            p.last_update == now,
    {
        PendingEvent { paths: Vec::new(), event_type: event_type_name(kind), last_update: now }
    }

    /// Gathers the changed `paths` at `now`. The set of gathered paths grows
    /// by those not yet in it; the event type stays that of the first change.
    pub fn record(&mut self, paths: &Vec<String>, now: u64)
        requires
            old(self).wf(),
        ensures
            final(self).wf(),
            final(self).event_type == old(self).event_type,
            final(self).last_update == now,
            texts(final(self).paths@).to_set() == texts(old(self).paths@).to_set() + texts(
                paths@,
            ).to_set(),
    {
        let mut i: usize = 0;
        let ghost start = texts(self.paths@);
        while i < paths.len()
            invariant
                i <= paths@.len(),
                self.event_type == old(self).event_type,
                texts(self.paths@).no_duplicates(),
                forall|t: Seq<char>|
                    texts(self.paths@).contains(t) <==> (start.contains(t) || texts(
                        paths@.take(i as int),
                    ).contains(t)),
            decreases paths@.len() - i,
        {
            let p = &paths[i];
            let mut present = false;
            let mut k: usize = 0;
            while k < self.paths.len()
                invariant
                    k <= self.paths@.len(),
                    present <==> exists|j: int| 0 <= j < k && (#[trigger] self.paths@[j])@ == p@,
                decreases self.paths@.len() - k,
            {
                if str_eq(self.paths[k].as_str(), p.as_str()) {
                    present = true;
                }
                k = k + 1;
            }
            let ghost before = texts(self.paths@);
            assert(forall|t: Seq<char>|
                before.contains(t) <==> (start.contains(t) || texts(paths@.take(i as int)).contains(
                    t,
                )));
            if !present {
                self.paths.push(p.clone());
            }
            proof {
                assert(texts(paths@.take(i + 1)) =~= texts(paths@.take(i as int)).push(p@));
                if !present {
                    assert(texts(self.paths@) =~= before.push(p@));
                    assert forall|j: int| 0 <= j < before.len() implies before[j] != p@ by {
                        assert(before[j] == self.paths@[j]@);
                    }
                } else {
                    let j = choose|j: int| 0 <= j < self.paths@.len() && (#[trigger] self.paths@[j])@ == p@;
                    assert(before[j] == p@);
                    assert(before.contains(p@));
                }
                assert forall|t: Seq<char>|
                    texts(self.paths@).contains(t) <==> (start.contains(t) || texts(
                        paths@.take(i + 1),
                    ).contains(t)) by {
                    lemma_push_contains(texts(paths@.take(i as int)), p@, t);
                    assert(before.contains(t) <==> (start.contains(t) || texts(
                        paths@.take(i as int),
                    ).contains(t)));
                    if !present {
                        lemma_push_contains(before, p@, t);
                    }
                }
            }
            i = i + 1;
        }
        assert(paths@.take(paths@.len() as int) =~= paths@);
        assert(texts(self.paths@).to_set() =~= start.to_set() + texts(paths@).to_set());
        self.last_update = now;
    }

    /// Whether the repository has been quiet long enough, at `now`, for the
    /// gathered changes to be reported.
    pub fn is_quiet(&self, now: u64) -> (b: bool)
        ensures
            b == quiet_at(self.last_update, now),
    {
        now >= self.last_update && now - self.last_update >= QUIET_PERIOD_MS
    }

    /// The event that reports the gathered changes of repository `repo_id`.
    pub fn to_watch_event(&self, repo_id: &str) -> (e: WatchEvent)
        ensures
            e.repo_id@ == repo_id@,
            texts(e.paths@) == texts(self.paths@),
            e.event_type@ == self.event_type@,
    {
        let mut paths: Vec<String> = Vec::new();
        let mut i: usize = 0;
        while i < self.paths.len()
            invariant
                i <= self.paths@.len(),
                texts(paths@) == texts(self.paths@.take(i as int)),
            decreases self.paths@.len() - i,
        {
            let ghost old_paths = paths@;
            let c = self.paths[i].clone();
            paths.push(c);
            proof {
                assert(texts(paths@) =~= texts(old_paths).push(self.paths@[i as int]@));
                assert(texts(self.paths@.take(i + 1)) =~= texts(self.paths@.take(i as int)).push(
                    self.paths@[i as int]@,
                ));
            }
            i = i + 1;
        }
        assert(self.paths@.take(self.paths@.len() as int) =~= self.paths@);
        WatchEvent {
            repo_id: repo_id.to_owned(),
            paths,
            event_type: self.event_type.clone(),
        }
    }
}

// ---------------------------------------------------------------------------
// Gathering the changes of all watched repositories
// ---------------------------------------------------------------------------

/// The paths of a filesystem event that are reported, relative to the
/// repository root: each changed path comes with its full text and its
/// path relative to the root (none when it is not under the root); paths
/// inside the Git directory, and paths outside the root, are left out.
pub open spec fn reported_paths(paths: Seq<(String, Option<String>)>) -> Seq<Seq<char>>
    decreases paths.len(),
{
    if paths.len() == 0 {
        Seq::empty()
    } else {
        let rest = reported_paths(paths.drop_last());
        let (full, relative) = paths.last();
        match relative {
            Some(r) if !inside_git_dir(full@) => rest.push(r@),
            _ => rest,
        }
    }
}

/// The reported paths of a filesystem event.
pub fn reported(paths: &Vec<(String, Option<String>)>) -> (r: Vec<String>)
    ensures
        texts(r@) == reported_paths(paths@),
{
    let mut r: Vec<String> = Vec::new();
    let mut i: usize = 0;
    while i < paths.len()
        invariant
            i <= paths@.len(),
            texts(r@) == reported_paths(paths@.take(i as int)),
        decreases paths@.len() - i,
    {
        assert(paths@.take(i + 1).drop_last() =~= paths@.take(i as int));
        let ghost before = r@;
        match &paths[i].1 {
            Some(rel) => {
                if !has_git_component(paths[i].0.as_str()) {
                    r.push(rel.clone());
                    assert(texts(r@) =~= texts(before).push(rel@));
                }
            },
            None => {},
        }
        i = i + 1;
    }
    assert(paths@.take(paths@.len() as int) =~= paths@);
    r
}

/// The gathered changes of repository `id`, if any.
pub open spec fn pending_of(es: Seq<(String, PendingEvent)>, id: Seq<char>) -> Option<PendingEvent> {
    if exists|i: int| 0 <= i < es.len() && (#[trigger] es[i]).0@ == id {
        Some(es[choose|i: int| 0 <= i < es.len() && (#[trigger] es[i]).0@ == id].1)
    } else {
        None
    }
}

/// No repository appears twice.
pub open spec fn distinct_repos(es: Seq<(String, PendingEvent)>) -> bool {
    forall|i: int, j: int| 0 <= i < j < es.len() ==> (#[trigger] es[i]).0@ != (#[trigger] es[j]).0@
}

proof fn lemma_pending_at(es: Seq<(String, PendingEvent)>, i: int)
    requires
        distinct_repos(es),
        0 <= i < es.len(),
    ensures
        pending_of(es, es[i].0@) == Some(es[i].1),
{
    let c = choose|c: int| 0 <= c < es.len() && (#[trigger] es[c]).0@ == es[i].0@;
    assert(c == i);
}

proof fn lemma_pending_removed(es: Seq<(String, PendingEvent)>, i: int, id: Seq<char>)
    requires
        distinct_repos(es),
        0 <= i < es.len(),
    ensures
        distinct_repos(es.remove(i)),
        id != es[i].0@ ==> pending_of(es.remove(i), id) == pending_of(es, id),
        pending_of(es.remove(i), es[i].0@) is None,
{
    let rs = es.remove(i);
    assert forall|a: int, b: int| 0 <= a < b < rs.len() implies (#[trigger] rs[a]).0@ != (
    #[trigger] rs[b]).0@ by {
        let a0 = if a < i { a } else { a + 1 };
        let b0 = if b < i { b } else { b + 1 };
        assert(rs[a] == es[a0] && rs[b] == es[b0]);
    }
    if id != es[i].0@ && exists|k: int| 0 <= k < es.len() && (#[trigger] es[k]).0@ == id {
        let k = choose|k: int| 0 <= k < es.len() && (#[trigger] es[k]).0@ == id;
        let k1 = if k < i { k } else { k - 1 };
        assert(rs[k1] == es[k]);
        lemma_pending_at(es, k);
        lemma_pending_at(rs, k1);
    }
    if id != es[i].0@ && exists|k: int| 0 <= k < rs.len() && (#[trigger] rs[k]).0@ == id {
        let k = choose|k: int| 0 <= k < rs.len() && (#[trigger] rs[k]).0@ == id;
        let k0 = if k < i { k } else { k + 1 };
        assert(rs[k] == es[k0]);
    }
    if exists|k: int| 0 <= k < rs.len() && (#[trigger] rs[k]).0@ == es[i].0@ {
        let k = choose|k: int| 0 <= k < rs.len() && (#[trigger] rs[k]).0@ == es[i].0@;
        let k0 = if k < i { k } else { k + 1 };
        assert(rs[k] == es[k0]);
    }
}

proof fn lemma_pending_pushed(es: Seq<(String, PendingEvent)>, e: (String, PendingEvent), id: Seq<char>)
    requires
        distinct_repos(es),
        pending_of(es, e.0@) is None,
    ensures
        distinct_repos(es.push(e)),
        pending_of(es.push(e), e.0@) == Some(e.1),
        id != e.0@ ==> pending_of(es.push(e), id) == pending_of(es, id),
{
    let ps = es.push(e);
    assert forall|a: int, b: int| 0 <= a < b < ps.len() implies (#[trigger] ps[a]).0@ != (
    #[trigger] ps[b]).0@ by {
        if b == es.len() {
            assert(ps[a] == es[a]);
            assert(!(0 <= a < es.len() && es[a].0@ == e.0@));
        } else {
            assert(ps[a] == es[a] && ps[b] == es[b]);
        }
    }
    lemma_pending_at(ps, es.len() as int);
    if id != e.0@ {
        if exists|k: int| 0 <= k < es.len() && (#[trigger] es[k]).0@ == id {
            let k = choose|k: int| 0 <= k < es.len() && (#[trigger] es[k]).0@ == id;
            assert(ps[k] == es[k]);
            lemma_pending_at(es, k);
            lemma_pending_at(ps, k);
        }
        if exists|k: int| 0 <= k < ps.len() && (#[trigger] ps[k]).0@ == id {
            let k = choose|k: int| 0 <= k < ps.len() && (#[trigger] ps[k]).0@ == id;
            assert(ps[k] == es[k]);
        }
    }
}

/// The changes gathered for one repository, `after` a change of kind `kind`
/// to `paths` at `now`, from those gathered `before`: a change without
/// reported paths changes nothing; otherwise its reported paths join the
/// gathered ones, the last change is at `now`, and the event type stays
/// that of the first change gathered.
pub open spec fn gathered(
    before: Option<PendingEvent>,
    after: Option<PendingEvent>,
    kind: ChangeKind,
    paths: Seq<(String, Option<String>)>,
    now: u64,
) -> bool {
    if reported_paths(paths).len() == 0 {
        after == before
    } else {
        after matches Some(p) && {
            &&& p.wf()
            &&& p.last_update == now
            &&& p.event_type@ == match before {
                Some(q) => q.event_type@,
                None => change_name(kind),
            }
            &&& texts(p.paths@).to_set() == match before {
                Some(q) => texts(q.paths@).to_set(),
                None => Set::empty(),
            } + reported_paths(paths).to_set()
        }
    }
}

/// The changes gathered for each watched repository, reported once the
/// repository has been quiet for a while.
pub struct EventCollector {
    events: Vec<(String, PendingEvent)>,
}

impl EventCollector {
    #[verifier::type_invariant]
    closed spec fn wf(self) -> bool {
        &&& distinct_repos(self.events@)
        &&& forall|i: int| 0 <= i < self.events@.len() ==> (#[trigger] self.events@[i]).1.wf()
    }

    /// The changes gathered for repository `repo_id`, if any.
    pub closed spec fn pending(&self, repo_id: Seq<char>) -> Option<PendingEvent> {
        pending_of(self.events@, repo_id)
    }

    /// A collector with nothing gathered.
    pub fn new() -> (c: Self)
        ensures
            forall|id: Seq<char>| c.pending(id) is None,
    {
        EventCollector { events: Vec::new() }
    }

    fn position(&self, repo_id: &str) -> (r: Option<usize>)
        ensures
            match r {
                Some(i) => i < self.events@.len() && self.events@[i as int].0@ == repo_id@,
                None => self.pending(repo_id@) is None,
            },
    {
        let mut i: usize = 0;
        while i < self.events.len()
            invariant
                i <= self.events@.len(),
                forall|j: int| 0 <= j < i ==> (#[trigger] self.events@[j]).0@ != repo_id@,
            decreases self.events@.len() - i,
        {
            if str_eq(self.events[i].0.as_str(), repo_id) {
                return Some(i);
            }
            i = i + 1;
        }
        None
    }

    /// Gathers a change of kind `kind` to `paths` in repository `repo_id`
    /// at `now`. When the change has reported paths, they join the paths
    /// gathered for the repository and its last change becomes `now`; the
    /// event type stays that of the first change gathered. Other
    /// repositories are untouched.
    pub fn handle_event(
        &mut self,
        repo_id: &str,
        kind: ChangeKind,
        paths: &Vec<(String, Option<String>)>,
        now: u64,
    )
        ensures
            forall|id: Seq<char>|
                id != repo_id@ ==> #[trigger] final(self).pending(id) == old(self).pending(id),
            gathered(
                old(self).pending(repo_id@),
                final(self).pending(repo_id@),
                kind,
                paths@,
                now,
            ),
    {
        proof {
            use_type_invariant(&*self);
        }
        let rel = reported(paths);
        if rel.len() == 0 {
            return;
        }
        let ghost es = self.events@;
        let found = self.position(repo_id);
        let mut events: Vec<(String, PendingEvent)> = Vec::new();
        std::mem::swap(&mut events, &mut self.events);
        let mut pending = match found {
            Some(i) => {
                proof {
                    lemma_pending_at(es, i as int);
                    lemma_pending_removed(es, i as int, repo_id@);
                    assert forall|id: Seq<char>| id != repo_id@ implies pending_of(es.remove(i as int), id)
                        == pending_of(es, id) by {
                        lemma_pending_removed(es, i as int, id);
                    }
                }
                let (_, p) = events.remove(i);
                p
            },
            None => PendingEvent::new(kind, now),
        };
        let ghost rest = events@;
        let ghost p0 = pending;
        assert(p0.wf());
        pending.record(&rel, now);
        let ghost p1 = pending;
        let entry = (repo_id.to_owned(), pending);
        events.push(entry);
        proof {
            assert(pending_of(rest, repo_id@) is None);
            lemma_pending_pushed(rest, entry, repo_id@);
            assert(pending_of(events@, repo_id@) == Some(entry.1));
            assert(entry.0@ == repo_id@);
            assert(p0.event_type@ == match pending_of(es, repo_id@) {
                Some(q) => q.event_type@,
                None => change_name(kind),
            });
            if found is None {
                assert(texts(p0.paths@) =~= Seq::<Seq<char>>::empty());
                assert(texts(p0.paths@).to_set() =~= Set::<Seq<char>>::empty());
            }
            assert forall|id: Seq<char>| id != repo_id@ implies pending_of(events@, id) == pending_of(
                es,
                id,
            ) by {
                lemma_pending_pushed(rest, entry, id);
            }
            assert forall|i: int| 0 <= i < events@.len() implies (#[trigger] events@[i]).1.wf() by {
                if i < rest.len() {
                    if found is Some {
                        let k = found->0 as int;
                        let i0 = if i < k { i } else { i + 1 };
                        assert(rest[i] == es[i0]);
                    } else {
                        assert(rest[i] == es[i]);
                    }
                }
            }
        }
        self.events = events;
    }

    /// Takes the gathered changes of repository `repo_id` when it has been
    /// quiet long enough at `now`: they are reported as one event and
    /// forgotten. Otherwise nothing happens.
    pub fn take_ready(&mut self, repo_id: &str, now: u64) -> (r: Option<WatchEvent>)
        ensures
            match old(self).pending(repo_id@) {
                Some(p) if quiet_at(p.last_update, now) => {
                    &&& r matches Some(e) && e.repo_id@ == repo_id@ && texts(e.paths@) == texts(
                        p.paths@,
                    ) && e.event_type@ == p.event_type@
                    &&& final(self).pending(repo_id@) is None
                    &&& forall|id: Seq<char>|
                        id != repo_id@ ==> #[trigger] final(self).pending(id) == old(self).pending(id)
                },
                _ => r is None && forall|id: Seq<char>|
                    #[trigger] final(self).pending(id) == old(self).pending(id),
            },
    {
        proof {
            use_type_invariant(&*self);
        }
        let ghost es = self.events@;
        match self.position(repo_id) {
            Some(i) => {
                proof {
                    lemma_pending_at(es, i as int);
                }
                if !self.events[i].1.is_quiet(now) {
                    return None;
                }
                let event = self.events[i].1.to_watch_event(repo_id);
                let mut events: Vec<(String, PendingEvent)> = Vec::new();
                std::mem::swap(&mut events, &mut self.events);
                events.remove(i);
                proof {
                    lemma_pending_removed(es, i as int, repo_id@);
                    assert forall|id: Seq<char>| id != repo_id@ implies pending_of(events@, id)
                        == pending_of(es, id) by {
                        lemma_pending_removed(es, i as int, id);
                    }
                    assert forall|k: int| 0 <= k < events@.len() implies (#[trigger] events@[k]).1.wf() by {
                        let k0 = if k < i { k } else { k + 1 };
                        assert(events@[k] == es[k0]);
                    }
                }
                self.events = events;
                Some(event)
            },
            None => None,
        }
    }
}

// ---------------------------------------------------------------------------
// Laws
// ---------------------------------------------------------------------------

/// A repository that stops being watched is no longer watched: the
/// identifiers are distinct, so removing its one entry removes it.
pub proof fn lemma_unwatched_is_gone(ids: Seq<Seq<char>>, i: int)
    requires
        ids.no_duplicates(),
        0 <= i < ids.len(),
    ensures
        !ids.remove(i).contains(ids[i]),
{
    let rest = ids.remove(i);
    if rest.contains(ids[i]) {
        let k = choose|k: int| 0 <= k < rest.len() && rest[k] == ids[i];
        let k0 = if k < i { k } else { k + 1 };
        assert(rest[k] == ids[k0]);
    }
}

/// Bursts of changes are coalesced: two changes gathered for a repository
/// with nothing pending make one pending event, with the reported paths of
/// both and the type of the first change that had any.
pub proof fn lemma_bursts_coalesce(
    p1: Option<PendingEvent>,
    p2: Option<PendingEvent>,
    kind1: ChangeKind,
    paths1: Seq<(String, Option<String>)>,
    now1: u64,
    kind2: ChangeKind,
    paths2: Seq<(String, Option<String>)>,
    now2: u64,
)
    requires
        gathered(None, p1, kind1, paths1, now1),
        gathered(p1, p2, kind2, paths2, now2),
        reported_paths(paths1).len() > 0,
    ensures
        p2 matches Some(p) && texts(p.paths@).to_set() == reported_paths(paths1).to_set()
            + reported_paths(paths2).to_set() && p.event_type@ == change_name(kind1),
{
    assert(Set::<Seq<char>>::empty() + reported_paths(paths1).to_set() =~= reported_paths(
        paths1,
    ).to_set());
    if reported_paths(paths2).len() == 0 {
        assert(reported_paths(paths2).to_set() =~= Set::<Seq<char>>::empty());
        assert(reported_paths(paths1).to_set() + reported_paths(paths2).to_set() =~= reported_paths(
            paths1,
        ).to_set());
    }
}

/// Changes are held back until the repository has been quiet for 200 ms:
/// after a change with reported paths is gathered at `now`, the gathered
/// changes are ready at `t` exactly when `t` is at least 200 ms after
/// `now`, and from then on they stay ready.
pub proof fn lemma_ready_after_quiet_period(
    before: Option<PendingEvent>,
    after: Option<PendingEvent>,
    kind: ChangeKind,
    paths: Seq<(String, Option<String>)>,
    now: u64,
    t: u64,
    later: u64,
)
    requires
        gathered(before, after, kind, paths, now),
        reported_paths(paths).len() > 0,
        t <= later,
    ensures
        after matches Some(p) && (quiet_at(p.last_update, t) <==> t >= now + 200),
        after matches Some(p) && (quiet_at(p.last_update, t) ==> quiet_at(p.last_update, later)),
        after matches Some(p) && !quiet_at(p.last_update, now),
{
}

/// A change is inside the Git directory exactly by its `.git` component:
/// any path through a `.git` directory is inside it, and a file named
/// otherwise (such as `.gitignore`) in a directory outside it is not.
pub proof fn lemma_git_dir_by_component(dir: Seq<char>, name: Seq<char>, rest: Seq<char>)
    ensures
        inside_git_dir(dir + seq!['/'] + ".git"@ + seq!['/'] + rest),
        !segments(dir).contains(".git"@) && !name.contains('/') && name != ".git"@
            ==> !inside_git_dir(dir + seq!['/'] + name),
{
    let g = ".git"@;
    assert(!g.contains('/')) by {
        reveal_strlit(".git");
        if g.contains('/') {
            let k = choose|k: int| 0 <= k < g.len() && g[k] == '/';
        }
    }
    lemma_segments_join(dir, g + seq!['/'] + rest);
    lemma_segments_join(g, rest);
    lemma_segments_of_name(g);
    assert(dir + seq!['/'] + g + seq!['/'] + rest =~= dir + seq!['/'] + (g + seq!['/'] + rest));
    let all = segments(dir) + (seq![g] + segments(rest));
    assert(all[segments(dir).len() as int] == g);
    if !segments(dir).contains(g) && !name.contains('/') && name != g {
        lemma_segments_join(dir, name);
        lemma_segments_of_name(name);
        let s = segments(dir) + seq![name];
        if s.contains(g) {
            let k = choose|k: int| 0 <= k < s.len() && s[k] == g;
            if k < segments(dir).len() {
                assert(segments(dir)[k] == g);
            }
        }
    }
}

/// Whether a changed path is reported: it lies under the root and has no
/// `.git` component.
pub open spec fn is_reported(e: (String, Option<String>)) -> bool {
    e.1 is Some && !inside_git_dir(e.0@)
}

/// Every changed path under the root with no `.git` component is
/// reported, hidden files such as `.gitignore` among them: the reported
/// paths of an event are those of its first part followed by those of the
/// rest, and a single changed path is reported, by its relative path,
/// exactly when it lies under the root and has no `.git` component.
pub proof fn lemma_reported_exactly(
    a: Seq<(String, Option<String>)>,
    b: Seq<(String, Option<String>)>,
    e: (String, Option<String>),
)
    ensures
        reported_paths(a + b) == reported_paths(a) + reported_paths(b),
        reported_paths(seq![e]) == if is_reported(e) {
            seq![e.1->0@]
        } else {
            Seq::<Seq<char>>::empty()
        },
        forall|i: int|
            0 <= i < a.len() && is_reported(#[trigger] a[i]) ==> reported_paths(a).contains(
                a[i].1->0@,
            ),
    decreases b.len(),
{
    assert(seq![e].drop_last() =~= Seq::<(String, Option<String>)>::empty());
    assert(seq![e].last() == e);
    assert(reported_paths(Seq::<(String, Option<String>)>::empty()) == Seq::<Seq<char>>::empty());
    if is_reported(e) {
        assert(reported_paths(seq![e]) =~= seq![e.1->0@]);
    } else {
        assert(reported_paths(seq![e]) =~= Seq::<Seq<char>>::empty());
    }
    if b.len() == 0 {
        assert(a + b =~= a);
    } else {
        lemma_reported_exactly(a, b.drop_last(), e);
        assert((a + b).drop_last() =~= a + b.drop_last());
        assert((a + b).last() == b.last());
    }
    assert forall|i: int| 0 <= i < a.len() && is_reported(#[trigger] a[i]) implies reported_paths(
        a,
    ).contains(a[i].1->0@) by {
        lemma_reported_contains(a, i);
    }
}

/// The changed path at `i`, when reported, is among the reported paths.
proof fn lemma_reported_contains(a: Seq<(String, Option<String>)>, i: int)
    requires
        0 <= i < a.len(),
        is_reported(a[i]),
    ensures
        reported_paths(a).contains(a[i].1->0@),
    decreases a.len(),
{
    let rest = a.drop_last();
    if i < a.len() - 1 {
        lemma_reported_contains(rest, i);
        assert(rest[i] == a[i]);
        let k = choose|k: int| 0 <= k < reported_paths(rest).len() && reported_paths(rest)[k] == a[i].1->0@;
        assert(reported_paths(a)[k] == a[i].1->0@);
    } else {
        assert(a.last() == a[i]);
        let n = reported_paths(rest).len() as int;
        assert(reported_paths(a)[n] == a[i].1->0@);
    }
}

/// Changes inside the Git directory are never reported: every reported
/// path is the relative path of a changed path that has no `.git`
/// component.
pub proof fn lemma_reported_outside_git(paths: Seq<(String, Option<String>)>, t: Seq<char>)
    requires
        reported_paths(paths).contains(t),
    ensures
        exists|i: int|
            0 <= i < paths.len() && !inside_git_dir((#[trigger] paths[i]).0@) && paths[i].1 is Some
                && paths[i].1->0@ == t,
    decreases paths.len(),
{
    let rest = paths.drop_last();
    let (full, relative) = paths.last();
    let k = choose|k: int| 0 <= k < reported_paths(paths).len() && reported_paths(paths)[k] == t;
    if k < reported_paths(rest).len() {
        assert(reported_paths(rest)[k] == t);
        lemma_reported_outside_git(rest, t);
        let j = choose|j: int|
            0 <= j < rest.len() && !inside_git_dir((#[trigger] rest[j]).0@) && rest[j].1 is Some
                && rest[j].1->0@ == t;
        assert(paths[j] == rest[j]);
    } else {
        assert(paths[paths.len() - 1] == paths.last());
    }
}

} // verus!
