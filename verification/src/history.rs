//! The commit history: commit summaries and their ref labels, paging of the
//! log, the change types of a commit's diff, and the search of the history
//! for files by name.

use vstd::prelude::*;
use vstd::string::*;

use crate::fuzzy::{
    fuzzy_match_checked, fuzzy_verdict, score_fits, scores_a_match,
};
use crate::order::{sort_by_key, sorted_by_key, KeyOrder};
use crate::repo::str_eq;
use crate::text::{
    chars_of, first_line, first_line_of, is_blank, is_blank_str, string_from_chars, string_texts,
};
use crate::text::{decimal, lossy_text, push_decimal, utf8_lossy};
use vstd::utf8::{decode_utf8, valid_utf8};
use crate::types::{
    CommitAuthor, CommitDiffHunk, CommitDiffLine, CommitFileChangeType, CommitFileDiff,
    CommitFileMatch, CommitSummary, FileSearchResult,
};

verus! {

// ---------------------------------------------------------------------------
// Change types
// ---------------------------------------------------------------------------

/// The status Git gives a file in a diff.
#[derive(Debug, Clone, Copy, PartialEq, Eq, Structural)]
pub enum DeltaStatus {
    Added,
    Deleted,
    Modified,
    Renamed,
    Copied,
    /// any other status (unmodified, ignored, untracked, type change, ...)
    Other,
}

/// How a commit changed a file: the diff status, and a modification for
/// any status without a change type of its own.
pub open spec fn change_of(status: DeltaStatus) -> CommitFileChangeType {
    match status {
        DeltaStatus::Added => CommitFileChangeType::Added,
        DeltaStatus::Deleted => CommitFileChangeType::Deleted,
        DeltaStatus::Modified => CommitFileChangeType::Modified,
        DeltaStatus::Renamed => CommitFileChangeType::Renamed,
        DeltaStatus::Copied => CommitFileChangeType::Copied,
        DeltaStatus::Other => CommitFileChangeType::Modified,
    }
}

/// How a commit changed a file with diff status `status`.
pub fn change_type(status: DeltaStatus) -> (c: CommitFileChangeType)
    ensures
        c == change_of(status),
{
    match status {
        DeltaStatus::Added => CommitFileChangeType::Added,
        DeltaStatus::Deleted => CommitFileChangeType::Deleted,
        DeltaStatus::Modified => CommitFileChangeType::Modified,
        DeltaStatus::Renamed => CommitFileChangeType::Renamed,
        DeltaStatus::Copied => CommitFileChangeType::Copied,
        DeltaStatus::Other => CommitFileChangeType::Modified,
    }
}

/// Whether a diff entry with this status records where the file came from.
pub fn keeps_old_path(status: DeltaStatus) -> (b: bool)
    ensures
        b == (status == DeltaStatus::Renamed || status == DeltaStatus::Copied),
{
    status == DeltaStatus::Renamed || status == DeltaStatus::Copied
}

/// The line type of a commit's diff line with origin character `c`:
/// `add`, `del`, and `ctx` for anything else.
pub open spec fn line_type_text(c: char) -> Seq<char> {
    if c == '+' {
        "add"@
    } else if c == '-' {
        "del"@
    } else {
        "ctx"@
    }
}

/// The line type of a commit's diff line with origin character `c`.
pub fn commit_line_type(c: char) -> (s: String)
    ensures
        s@ == line_type_text(c),
{
    if c == '+' {
        "add".to_owned()
    } else if c == '-' {
        "del".to_owned()
    } else {
        "ctx".to_owned()
    }
}

// ---------------------------------------------------------------------------
// The files of a commit's diff
// ---------------------------------------------------------------------------

/// The entry for one file changed by a commit, before its hunks are
/// collected: its path (empty when it has none), where it came from when
/// renamed or copied, how it changed, and whether either side is binary.
pub fn commit_file_diff(
    new_path: Option<String>,
    old_path: Option<String>,
    status: DeltaStatus,
    new_binary: bool,
    old_binary: bool,
) -> (f: CommitFileDiff)
    ensures
        f.path@ == text_or(new_path, ""@),
        f.old_path == (if status == DeltaStatus::Renamed || status == DeltaStatus::Copied {
            old_path
        } else {
            None
        }),
        f.change == change_of(status),
        f.is_binary == (new_binary || old_binary),
        f.hunks is None,
{
    proof {
        reveal_strlit("");
    }
    let path = match new_path {
        Some(p) => p,
        None => String::new(),
    };
    let kept = if keeps_old_path(status) {
        old_path
    } else {
        None
    };
    CommitFileDiff {
        path,
        old_path: kept,
        change: change_type(status),
        is_binary: new_binary || old_binary,
        hunks: None,
    }
}

/// A commit's file entry with its hunks: a binary file gets none (it keeps
/// what it had).
pub fn with_hunks(file: CommitFileDiff, hunks: Vec<CommitDiffHunk>) -> (f: CommitFileDiff)
    ensures
        f.path == file.path,
        f.old_path == file.old_path,
        f.change == file.change,
        f.is_binary == file.is_binary,
        f.hunks == (if file.is_binary {
            file.hunks
        } else {
            Some(hunks)
        }),
{
    if file.is_binary {
        file
    } else {
        let CommitFileDiff { path, old_path, change, is_binary, hunks: _ } = file;
        CommitFileDiff { path, old_path, change, is_binary, hunks: Some(hunks) }
    }
}

/// A hunk of a commit's diff as a walk starts it: the header as reported
/// and the ranges, no lines yet.
pub open spec fn started_commit_hunk(
    h: CommitDiffHunk,
    header: Seq<u8>,
    old_start: u32,
    old_lines: u32,
    new_start: u32,
    new_lines: u32,
) -> bool {
    &&& h.header@ == utf8_lossy(header)
    &&& h.old_start == old_start
    &&& h.old_lines == old_lines
    &&& h.new_start == new_start
    &&& h.new_lines == new_lines
    &&& h.lines@.len() == 0
}

/// A line of a commit's diff as a walk reports it.
pub open spec fn walked_commit_line(
    l: CommitDiffLine,
    origin: char,
    content: Seq<u8>,
    ln_old: Option<u32>,
    ln_new: Option<u32>,
) -> bool {
    &&& l.ln_old == ln_old
    &&& l.ln_new == ln_new
    &&& l.line_type@ == line_type_text(origin)
    &&& l.text@ == utf8_lossy(content)
    &&& valid_utf8(content) ==> l.text@ == decode_utf8(content)
}

/// The same hunk, lines aside.
pub open spec fn same_commit_hunk_header(a: CommitDiffHunk, b: CommitDiffHunk) -> bool {
    &&& a.header == b.header
    &&& a.old_start == b.old_start
    &&& a.old_lines == b.old_lines
    &&& a.new_start == b.new_start
    &&& a.new_lines == b.new_lines
}

/// Collects the hunks of one file of a commit's diff from the events of a
/// walk over the whole diff: hunk headers and lines of other files are
/// passed over; each hunk header of the file starts a hunk, and each line
/// of the file joins the latest one.
pub struct HunkCollector {
    file_path: String,
    hunks: Vec<CommitDiffHunk>,
}

impl HunkCollector {
    /// The path whose hunks are collected.
    pub closed spec fn file_path(&self) -> Seq<char> {
        self.file_path@
    }

    /// The hunks collected so far, the open one last.
    pub closed spec fn collected(&self) -> Seq<CommitDiffHunk> {
        self.hunks@
    }

    /// A collector for the hunks of `file_path`, before the walk.
    pub fn new(file_path: &str) -> (c: Self)
        ensures
            c.file_path() == file_path@,
            c.collected().len() == 0,
    {
        HunkCollector { file_path: file_path.to_owned(), hunks: Vec::new() }
    }

    /// The walk reached a hunk header of the file at `path`.
    pub fn on_hunk(
        &mut self,
        path: &str,
        header: &[u8],
        old_start: u32,
        old_lines: u32,
        new_start: u32,
        new_lines: u32,
    )
        ensures
            final(self).file_path() == old(self).file_path(),
            path@ != old(self).file_path() ==> final(self).collected() == old(self).collected(),
            path@ == old(self).file_path() ==> {
                &&& final(self).collected().len() == old(self).collected().len() + 1
                &&& final(self).collected().drop_last() == old(self).collected()
                &&& started_commit_hunk(
                    final(self).collected().last(),
                    header@,
                    old_start,
                    old_lines,
                    new_start,
                    new_lines,
                )
            },
    {
        if !str_eq(path, self.file_path.as_str()) {
            return;
        }
        let hunk = CommitDiffHunk {
            header: lossy_text(header),
            old_start,
            old_lines,
            new_start,
            new_lines,
            lines: Vec::new(),
        };
        self.hunks.push(hunk);
        assert(self.hunks@.drop_last() =~= old(self).hunks@);
    }

    /// The walk reached a line of the file at `path`.
    pub fn on_line(
        &mut self,
        path: &str,
        origin: char,
        content: &[u8],
        ln_old: Option<u32>,
        ln_new: Option<u32>,
    )
        ensures
            final(self).file_path() == old(self).file_path(),
            path@ != old(self).file_path() || old(self).collected().len() == 0
                ==> final(self).collected() == old(self).collected(),
            path@ == old(self).file_path() && old(self).collected().len() > 0 ==> {
                let before = old(self).collected();
                let after = final(self).collected();
                &&& after.len() == before.len()
                &&& after.drop_last() == before.drop_last()
                &&& same_commit_hunk_header(after.last(), before.last())
                &&& after.last().lines@.drop_last() == before.last().lines@
                &&& after.last().lines@.len() == before.last().lines@.len() + 1
                &&& walked_commit_line(
                    after.last().lines@.last(),
                    origin,
                    content@,
                    ln_old,
                    ln_new,
                )
            },
    {
        if !str_eq(path, self.file_path.as_str()) {
            return;
        }
        if self.hunks.len() == 0 {
            return;
        }
        let mut h = self.hunks.pop().unwrap();
        let ghost h0 = h;
        h.lines.push(
            CommitDiffLine {
                ln_old,
                ln_new,
                line_type: commit_line_type(origin),
                text: lossy_text(content),
            },
        );
        assert(h.lines@.drop_last() =~= h0.lines@);
        self.hunks.push(h);
        assert(self.hunks@.drop_last() =~= old(self).hunks@.drop_last());
    }

    /// The hunks collected.
    pub fn finish(self) -> (r: Vec<CommitDiffHunk>)
        ensures
            r@ == self.collected(),
    {
        self.hunks
    }
}

/// Why a commit's diff cannot be shown.
#[derive(Debug, Clone, Copy, PartialEq, Eq, Structural)]
pub enum HistoryError {
    /// The commit has no parent with this index.
    ParentOutOfRange { index: usize, count: usize },
    /// The text is not a commit id.
    InvalidOid,
}

impl HistoryError {
    /// The message shown for this failure.
    pub fn message(&self) -> (m: String)
        ensures
            m@ == (match *self {
                HistoryError::ParentOutOfRange { index, count } => "Parent index "@ + decimal(
                    index as nat,
                ) + " out of range (commit has "@ + decimal(count as nat) + " parents)"@,
                HistoryError::InvalidOid => "Invalid commit OID"@,
            }),
    {
        let mut m = String::new();
        match self {
            HistoryError::ParentOutOfRange { index, count } => {
                m.append("Parent index ");
                push_decimal(&mut m, *index as u64);
                m.append(" out of range (commit has ");
                push_decimal(&mut m, *count as u64);
                m.append(" parents)");
            },
            HistoryError::InvalidOid => {
                m.append("Invalid commit OID");
            },
        }
        m
    }
}

/// An object id of the `git2` crate, carried through opaquely.
#[verifier::external_type_specification]
#[verifier::external_body]
pub struct ExOid(git2::Oid);

/// A hexadecimal digit.
pub open spec fn is_hex_digit(c: char) -> bool {
    ('0' <= c && c <= '9') || ('a' <= c && c <= 'f') || ('A' <= c && c <= 'F')
}

/// A commit id as Git reads one: 1 to 40 hexadecimal digits (a shorter one
/// stands for the id padded with zeros).
pub open spec fn is_oid_text(s: Seq<char>) -> bool {
    1 <= s.len() <= 40 && forall|i: int| 0 <= i < s.len() ==> is_hex_digit(#[trigger] s[i])
}

/// The object id that `git2::Oid::from_str` reads from the text `s`.
pub uninterp spec fn oid_named(s: Seq<char>) -> git2::Oid;

/// `git2::Oid::from_str`: reads a commit id written in hexadecimal. As the
/// libgit2 code it calls shows (`git_oid_fromstrn`), it succeeds exactly
/// for 1 to 40 hexadecimal digits, and the id depends on the text alone
/// (named `oid_named`; the digits are packed two to a byte, padded with
/// zeros, which is left unstated).
#[verifier::external_body]
fn oid_from_str(s: &str) -> (r: Result<git2::Oid, git2::Error>)
    ensures
        r is Ok <==> is_oid_text(s@),
        r matches Ok(o) ==> o == oid_named(s@),
{
    git2::Oid::from_str(s)
}

/// The commit id written `oid`, or `InvalidOid` when it is not one.
pub fn parse_commit_oid(oid: &str) -> (r: Result<git2::Oid, HistoryError>)
    ensures
        r is Ok <==> is_oid_text(oid@),
        r matches Ok(o) ==> o == oid_named(oid@),
        r matches Err(e) ==> e == HistoryError::InvalidOid,
{
    match oid_from_str(oid) {
        Ok(id) => Ok(id),
        Err(_) => Err(HistoryError::InvalidOid),
    }
}

/// The parent a commit is compared with: none for a root commit (it is
/// compared with the empty tree), else the requested parent (the first when
/// none is requested), which must exist.
pub fn parent_to_compare(parent: Option<usize>, parent_count: usize) -> (r: Result<
    Option<usize>,
    HistoryError,
>)
    ensures
        parent_count == 0 ==> r == Ok::<Option<usize>, HistoryError>(None),
        parent_count > 0 ==> {
            let index = match parent {
                Some(p) => p,
                None => 0,
            };
            if index < parent_count {
                r == Ok::<Option<usize>, HistoryError>(Some(index))
            } else {
                r == Err::<Option<usize>, HistoryError>(
                    HistoryError::ParentOutOfRange { index, count: parent_count },
                )
            }
        },
{
    if parent_count == 0 {
        return Ok(None);
    }
    let index = match parent {
        Some(p) => p,
        None => 0,
    };
    if index < parent_count {
        Ok(Some(index))
    } else {
        Err(HistoryError::ParentOutOfRange { index, count: parent_count })
    }
}

// ---------------------------------------------------------------------------
// Ref labels
// ---------------------------------------------------------------------------

/// The labels HEAD gives its commit: `HEAD -> <branch>` on a branch with a
/// readable name, none on a branch without one, and `HEAD` when detached.
pub fn head_refs(is_branch: bool, shorthand: Option<&str>) -> (labels: Vec<String>)
    ensures
        is_branch ==> match shorthand {
            Some(name) => labels@.len() == 1 && labels@[0]@ == "HEAD -> "@ + name@,
            None => labels@.len() == 0,
        },
        !is_branch ==> labels@.len() == 1 && labels@[0]@ == "HEAD"@,
{
    let mut labels: Vec<String> = Vec::new();
    if is_branch {
        match shorthand {
            Some(name) => {
                let mut l = "HEAD -> ".to_owned();
                l.append(name);
                labels.push(l);
            },
            None => {},
        }
    } else {
        labels.push("HEAD".to_owned());
    }
    labels
}

/// The label of a tag whose reference is `name`: `tag: ` and the name
/// without its `refs/tags/` prefix.
pub open spec fn tag_label_text(name: Seq<char>) -> Seq<char> {
    let prefix = "refs/tags/"@;
    if name.len() >= prefix.len() && name.take(prefix.len() as int) == prefix {
        "tag: "@ + name.skip(prefix.len() as int)
    } else {
        "tag: "@ + name
    }
}

/// A tag reference `refs/tags/<t>` is labelled `tag: <t>`.
pub proof fn lemma_tag_label_of_reference(t: Seq<char>)
    ensures
        tag_label_text("refs/tags/"@ + t) == "tag: "@ + t,
{
    let prefix = "refs/tags/"@;
    assert(("refs/tags/"@ + t).take(prefix.len() as int) =~= prefix);
    assert(("refs/tags/"@ + t).skip(prefix.len() as int) =~= t);
}

/// The label of the tag whose reference is `name`.
pub fn tag_label(name: &str) -> (l: String)
    ensures
        l@ == tag_label_text(name@),
{
    let cs = chars_of(name);
    let prefix = chars_of("refs/tags/");
    let mut is_prefixed = cs.len() >= prefix.len();
    let mut i: usize = 0;
    while is_prefixed && i < prefix.len()
        invariant
            i <= prefix@.len(),
            is_prefixed ==> cs@.len() >= prefix@.len(),
            is_prefixed ==> forall|j: int| 0 <= j < i ==> cs@[j] == prefix@[j],
            !is_prefixed ==> !(cs@.len() >= prefix@.len() && cs@.take(prefix@.len() as int)
                == prefix@),
        decreases prefix@.len() - i,
    {
        if cs[i] != prefix[i] {
            is_prefixed = false;
            assert(cs@.take(prefix@.len() as int)[i as int] != prefix@[i as int]);
        }
        i = i + 1;
    }
    let mut l = "tag: ".to_owned();
    if is_prefixed {
        assert(cs@.take(prefix@.len() as int) =~= prefix@);
        let mut rest: Vec<char> = Vec::new();
        let mut k = prefix.len();
        while k < cs.len()
            invariant
                prefix@.len() <= k <= cs@.len(),
                rest@ == cs@.subrange(prefix@.len() as int, k as int),
            decreases cs@.len() - k,
        {
            rest.push(cs[k]);
            k = k + 1;
        }
        assert(rest@ =~= cs@.skip(prefix@.len() as int));
        l.append(string_from_chars(rest.as_slice()).as_str());
    } else {
        l.append(name);
    }
    l
}

// ---------------------------------------------------------------------------
// Refs by commit
// ---------------------------------------------------------------------------

/// The ref labels of each commit, by commit id.
pub struct RefsMap {
    entries: Vec<(String, Vec<String>)>,
}

/// No two entries have the same commit id.
pub open spec fn distinct_keys(es: Seq<(String, Vec<String>)>) -> bool {
    forall|i: int, j: int| 0 <= i < j < es.len() ==> (#[trigger] es[i]).0@ != (#[trigger] es[j]).0@
}

/// The labels recorded for commit id `k`.
pub open spec fn labels_of(es: Seq<(String, Vec<String>)>, k: Seq<char>) -> Option<Seq<Seq<char>>> {
    if exists|i: int| 0 <= i < es.len() && (#[trigger] es[i]).0@ == k {
        Some(string_texts(es[choose|i: int| 0 <= i < es.len() && (#[trigger] es[i]).0@ == k].1@))
    } else {
        None
    }
}

proof fn lemma_labels_at(es: Seq<(String, Vec<String>)>, i: int)
    requires
        distinct_keys(es),
        0 <= i < es.len(),
    ensures
        labels_of(es, es[i].0@) == Some(string_texts(es[i].1@)),
{
    let k = es[i].0@;
    let c = choose|c: int| 0 <= c < es.len() && (#[trigger] es[c]).0@ == k;
    assert(c == i);
}

impl RefsMap {
    #[verifier::type_invariant]
    closed spec fn wf(self) -> bool {
        distinct_keys(self.entries@)
    }

    /// The labels recorded for commit id `oid`.
    pub closed spec fn labels(&self, oid: Seq<char>) -> Option<Seq<Seq<char>>> {
        labels_of(self.entries@, oid)
    }

    /// A map with no labels.
    pub fn new() -> (r: Self)
        ensures
            forall|k: Seq<char>| r.labels(k) is None,
    {
        RefsMap { entries: Vec::new() }
    }

    fn position(&self, oid: &str) -> (r: Option<usize>)
        ensures
            match r {
                Some(i) => i < self.entries@.len() && self.entries@[i as int].0@ == oid@,
                None => forall|i: int|
                    0 <= i < self.entries@.len() ==> (#[trigger] self.entries@[i]).0@ != oid@,
            },
    {
        let mut i: usize = 0;
        while i < self.entries.len()
            invariant
                i <= self.entries@.len(),
                forall|j: int| 0 <= j < i ==> (#[trigger] self.entries@[j]).0@ != oid@,
            decreases self.entries@.len() - i,
        {
            if str_eq(self.entries[i].0.as_str(), oid) {
                return Some(i);
            }
            i = i + 1;
        }
        None
    }

    /// Sets the labels of commit `oid` to `labels`, replacing any it had.
    pub fn insert(&mut self, oid: String, labels: Vec<String>)
        ensures
            final(self).labels(oid@) == Some(string_texts(labels@)),
            forall|k: Seq<char>| k != oid@ ==> final(self).labels(k) == old(self).labels(k),
    {
        proof {
            use_type_invariant(&*self);
        }
        let ghost key = oid@;
        let ghost new_labels = string_texts(labels@);
        let ghost es = self.entries@;
        let mut entries: Vec<(String, Vec<String>)> = Vec::new();
        std::mem::swap(&mut entries, &mut self.entries);
        let pos = position_of_key(&entries, oid.as_str());
        match pos {
            Some(i) => {
                entries.remove(i);
                entries.insert(i, (oid, labels));
                proof {
                    assert(entries@ =~= es.update(i as int, entries@[i as int]));
                }
            },
            None => {
                entries.push((oid, labels));
            },
        }
        proof {
            assert(distinct_keys(entries@)) by {
                assert forall|a: int, b: int|
                    0 <= a < b < entries@.len() implies (#[trigger] entries@[a]).0@ != (
                    #[trigger] entries@[b]).0@ by {
                    if a < es.len() && b < es.len() && pos is Some {
                        let i = pos->0 as int;
                        if a != i && b != i {
                            assert(entries@[a] == es[a] && entries@[b] == es[b]);
                        }
                    }
                }
            }
            let idx = match pos {
                Some(i) => i as int,
                None => es.len() as int,
            };
            lemma_labels_at(entries@, idx);
            assert forall|k: Seq<char>| k != key implies labels_of(entries@, k) == labels_of(es, k) by {
                if exists|i: int| 0 <= i < es.len() && (#[trigger] es[i]).0@ == k {
                    let c = choose|c: int| 0 <= c < es.len() && (#[trigger] es[c]).0@ == k;
                    assert(entries@[c] == es[c]);
                    lemma_labels_at(es, c);
                    lemma_labels_at(entries@, c);
                }
                if exists|i: int| 0 <= i < entries@.len() && (#[trigger] entries@[i]).0@ == k {
                    let c = choose|c: int| 0 <= c < entries@.len() && (#[trigger] entries@[c]).0@ == k;
                    assert(entries@[c] == es[c]);
                }
            }
        }
        self.entries = entries;
    }

    /// Appends `label` to the labels of commit `oid` (which start empty).
    pub fn push_label(&mut self, oid: String, label: String)
        ensures
            final(self).labels(oid@) == Some(
                match old(self).labels(oid@) {
                    Some(ls) => ls,
                    None => Seq::empty(),
                }.push(label@),
            ),
            forall|k: Seq<char>| k != oid@ ==> final(self).labels(k) == old(self).labels(k),
    {
        proof {
            use_type_invariant(&*self);
        }
        let mut labels: Vec<String> = Vec::new();
        match self.position(oid.as_str()) {
            Some(i) => {
                proof {
                    lemma_labels_at(self.entries@, i as int);
                }
                labels = clone_strings(&self.entries[i].1);
            },
            None => {},
        }
        let ghost before = labels@;
        labels.push(label);
        proof {
            assert(string_texts(labels@) =~= string_texts(before).push(labels@.last()@));
        }
        self.insert(oid, labels);
    }

    /// The labels recorded for commit `oid`.
    pub fn get(&self, oid: &str) -> (r: Option<Vec<String>>)
        ensures
            match r {
                Some(v) => self.labels(oid@) == Some(string_texts(v@)),
                None => self.labels(oid@) is None,
            },
    {
        proof {
            use_type_invariant(self);
        }
        match self.position(oid) {
            Some(i) => {
                proof {
                    lemma_labels_at(self.entries@, i as int);
                }
                Some(clone_strings(&self.entries[i].1))
            },
            None => None,
        }
    }
}

fn position_of_key(entries: &Vec<(String, Vec<String>)>, oid: &str) -> (r: Option<usize>)
    ensures
        match r {
            Some(i) => i < entries@.len() && entries@[i as int].0@ == oid@,
            None => forall|i: int| 0 <= i < entries@.len() ==> (#[trigger] entries@[i]).0@ != oid@,
        },
{
    let mut i: usize = 0;
    while i < entries.len()
        invariant
            i <= entries@.len(),
            forall|j: int| 0 <= j < i ==> (#[trigger] entries@[j]).0@ != oid@,
        decreases entries@.len() - i,
    {
        if str_eq(entries[i].0.as_str(), oid) {
            return Some(i);
        }
        i = i + 1;
    }
    None
}

/// A copy of some strings.
pub fn clone_strings(v: &Vec<String>) -> (r: Vec<String>)
    ensures
        string_texts(r@) == string_texts(v@),
{
    let mut r: Vec<String> = Vec::new();
    let mut i: usize = 0;
    while i < v.len()
        invariant
            i <= v@.len(),
            string_texts(r@) == string_texts(v@.take(i as int)),
        decreases v@.len() - i,
    {
        let ghost before = r@;
        r.push(v[i].clone());
        proof {
            assert(string_texts(r@) =~= string_texts(before).push(v@[i as int]@));
            assert(string_texts(v@.take(i + 1)) =~= string_texts(v@.take(i as int)).push(
                v@[i as int]@,
            ));
        }
        i = i + 1;
    }
    assert(v@.take(v@.len() as int) =~= v@);
    r
}

// ---------------------------------------------------------------------------
// Commit summaries
// ---------------------------------------------------------------------------

/// What a commit records, as plain values.
#[derive(Debug, Clone)]
pub struct CommitFacts {
    /// the full hexadecimal id
    pub oid: String,
    /// the author's name, when it is valid UTF-8
    pub author_name: Option<String>,
    /// the author's email, when it is valid UTF-8
    pub author_email: Option<String>,
    /// the author time, in seconds since the epoch
    pub time: i64,
    /// the message, when it is valid UTF-8
    pub message: Option<String>,
}

/// The text of an optional string, or `default`.
pub open spec fn text_or(o: Option<String>, default: Seq<char>) -> Seq<char> {
    match o {
        Some(s) => s@,
        None => default,
    }
}

/// The summary the log shows for a commit: its id and the first seven
/// characters of it, the author (`Unknown` and an empty email when they are
/// unreadable), the time, the message (empty when unreadable) and its first
/// line, and the ref labels of the commit.
pub open spec fn summary_matches(s: CommitSummary, facts: CommitFacts, refs: RefsMap) -> bool {
    &&& s.oid@ == facts.oid@
    &&& s.short_oid@ == facts.oid@.take(7)
    &&& s.author.name@ == text_or(facts.author_name, "Unknown"@)
    &&& s.author.email@ == text_or(facts.author_email, ""@)
    &&& s.time == facts.time
    &&& s.message@ == text_or(facts.message, ""@)
    &&& s.subject@ == first_line(text_or(facts.message, ""@))
    &&& match s.refs {
        Some(v) => refs.labels(facts.oid@) == Some(string_texts(v@)),
        None => refs.labels(facts.oid@) is None,
    }
}

/// Builds the summary the log shows for a commit.
pub fn build_commit_summary(facts: &CommitFacts, refs_map: &RefsMap) -> (s: CommitSummary)
    requires
        facts.oid@.len() >= 7,
        facts.oid.is_ascii(),
    ensures
        summary_matches(s, *facts, *refs_map),
{
    let short = facts.oid.as_str().substring_ascii(0, 7).to_owned();
    let name = match &facts.author_name {
        Some(n) => n.clone(),
        None => "Unknown".to_owned(),
    };
    let email = match &facts.author_email {
        Some(e) => e.clone(),
        None => "".to_owned(),
    };
    let message = match &facts.message {
        Some(m) => m.clone(),
        None => "".to_owned(),
    };
    let subject = first_line_of(message.as_str());
    let refs = refs_map.get(facts.oid.as_str());
    assert(facts.oid@.subrange(0, 7) =~= facts.oid@.take(7));
    CommitSummary {
        oid: facts.oid.clone(),
        short_oid: short,
        author: CommitAuthor { name, email },
        time: facts.time,
        message,
        subject,
        refs,
    }
}

// ---------------------------------------------------------------------------
// Paging the log
// ---------------------------------------------------------------------------

/// What to do with the next commit of the walk.
#[derive(Debug, Clone, Copy, PartialEq, Eq, Structural)]
pub enum LogStep {
    /// it comes before the page: pass over it
    Skip,
    /// it is on the page: summarize it
    Take,
    /// the page is full and this commit is past it: stop walking
    Stop,
}

/// What to do with the commit at position `i` of the walk, for a page of
/// `limit` commits after `skip` of them.
pub open spec fn log_step_at(skip: nat, limit: nat, i: nat) -> LogStep {
    if i < skip {
        LogStep::Skip
    } else if i < skip + limit {
        LogStep::Take
    } else {
        LogStep::Stop
    }
}

/// The paging of a walk of the log: a page of `limit` commits after `skip`.
pub struct LogPager {
    skip: usize,
    limit: usize,
    skipped: usize,
    count: usize,
    has_more: bool,
}

impl LogPager {
    /// Whether the walk went on past the page.
    pub closed spec fn stopped(&self) -> bool {
        self.has_more
    }

    /// Whether the walk went on past the page: there are more commits.
    pub fn has_more(&self) -> (b: bool)
        ensures
            b == self.stopped(),
    {
        self.has_more
    }

    /// Where the walk is: how many commits it has seen, stop excluded.
    pub closed spec fn position(&self) -> nat {
        (self.skipped + self.count) as nat
    }

    /// The commits to pass over before the page.
    pub closed spec fn skip_count(&self) -> nat {
        self.skip as nat
    }

    /// The size of the page.
    pub closed spec fn page_size(&self) -> nat {
        self.limit as nat
    }

    #[verifier::type_invariant]
    closed spec fn wf(self) -> bool {
        &&& self.skipped <= self.skip
        &&& self.count <= self.limit
        &&& self.count > 0 ==> self.skipped == self.skip
    }

    /// A pager for a page of `limit` commits after `skip` of them (none
    /// when no skip is given), before the walk starts.
    pub fn new(limit: usize, skip: Option<usize>) -> (p: Self)
        ensures
            p.position() == 0,
            p.skip_count() == match skip {
                Some(s) => s as nat,
                None => 0,
            },
            p.page_size() == limit,
            !p.stopped(),
    {
        let skip_count = match skip {
            Some(s) => s,
            None => 0,
        };
        LogPager { skip: skip_count, limit, skipped: 0, count: 0, has_more: false }
    }

    /// Decides what to do with the next commit of the walk.
    pub fn next_commit(&mut self) -> (step: LogStep)
        requires
            !old(self).stopped(),
        ensures
            step == log_step_at(old(self).skip_count(), old(self).page_size(), old(self).position()),
            final(self).skip_count() == old(self).skip_count(),
            final(self).page_size() == old(self).page_size(),
            step != LogStep::Stop ==> final(self).position() == old(self).position() + 1
                && !final(self).stopped(),
            step == LogStep::Stop ==> final(self).position() == old(self).position()
                && final(self).stopped(),
    {
        proof {
            use_type_invariant(&*self);
        }
        if self.skipped < self.skip {
            self.skipped = self.skipped + 1;
            return LogStep::Skip;
        }
        if self.count >= self.limit {
            self.has_more = true;
            return LogStep::Stop;
        }
        self.count = self.count + 1;
        LogStep::Take
    }
}

/// A page of the log is a window of the walk: the commits taken are exactly
/// those at positions `skip` up to `skip + limit`, those before it are
/// passed over, and once the walk stops it stays stopped.
pub proof fn lemma_log_page_window(skip: nat, limit: nat, i: nat, j: nat)
    ensures
        log_step_at(skip, limit, i) == LogStep::Take <==> skip <= i < skip + limit,
        log_step_at(skip, limit, i) == LogStep::Skip <==> i < skip,
        log_step_at(skip, limit, i) == LogStep::Stop && i <= j ==> log_step_at(skip, limit, j)
            == LogStep::Stop,
{
}

// ---------------------------------------------------------------------------
// Searching the history for files
// ---------------------------------------------------------------------------

/// How many commits, from HEAD back, a file search looks at.
pub const SEARCH_COMMIT_LIMIT: usize = 200;

/// The file-name part of a path: what follows its last `/`.
pub open spec fn file_name_text(path: Seq<char>) -> Seq<char>
    decreases path.len(),
{
    if path.len() == 0 {
        path
    } else if path.last() == '/' {
        Seq::empty()
    } else {
        file_name_text(path.drop_last()).push(path.last())
    }
}

/// The file name of a path is its last component: for a name without `/`,
/// the file name of `dir/name` and of `name` alone is `name`.
pub proof fn lemma_file_name_is_last_component(dir: Seq<char>, name: Seq<char>)
    requires
        !name.contains('/'),
    ensures
        file_name_text(dir + seq!['/'] + name) == name,
        file_name_text(name) == name,
    decreases name.len(),
{
    if name.len() == 0 {
        assert(dir + seq!['/'] + name =~= dir.push('/'));
        assert((dir + seq!['/'] + name).drop_last() =~= dir);
    } else {
        let n1 = name.drop_last();
        assert(!n1.contains('/')) by {
            if n1.contains('/') {
                let k = choose|k: int| 0 <= k < n1.len() && n1[k] == '/';
                assert(name[k] == '/');
            }
        }
        assert(name.last() != '/') by {
            assert(name[name.len() - 1] == name.last());
        }
        lemma_file_name_is_last_component(dir, n1);
        assert((dir + seq!['/'] + name).drop_last() =~= dir + seq!['/'] + n1);
        assert(n1.push(name.last()) =~= name);
    }
}

/// The file-name part of `path`.
pub fn file_name_of(path: &str) -> (name: String)
    ensures
        name@ == file_name_text(path@),
{
    let cs = chars_of(path);
    let mut name: Vec<char> = Vec::new();
    let mut i: usize = 0;
    while i < cs.len()
        invariant
            cs@ == path@,
            i <= cs@.len(),
            name@ == file_name_text(cs@.take(i as int)),
        decreases cs@.len() - i,
    {
        assert(cs@.take(i + 1).drop_last() =~= cs@.take(i as int));
        if cs[i] == '/' {
            name = Vec::new();
        } else {
            name.push(cs[i]);
        }
        i = i + 1;
    }
    assert(cs@.take(cs@.len() as int) =~= cs@);
    string_from_chars(name.as_slice())
}

/// The full lowercase mapping of a text.
pub uninterp spec fn lowercase_text(s: Seq<char>) -> Seq<char>;

/// `str::to_lowercase`: the contract names Unicode's lowercase mapping.
#[verifier::external_body]
fn to_lowercase(s: &str) -> (r: String)
    ensures
        r@ == lowercase_text(s@),
{
    s.to_lowercase()
}

/// The query a search compares file names with: none for a blank query,
/// else its lowercase form.
pub fn normalize_query(query: &str) -> (r: Option<String>)
    ensures
        match r {
            None => is_blank(query@),
            Some(q) => !is_blank(query@) && q@ == lowercase_text(query@),
        },
{
    if is_blank_str(query) {
        None
    } else {
        Some(to_lowercase(query))
    }
}

/// The file search result with its score, as sorted: a higher score
/// first, then more commits first.
impl KeyOrder for (FileSearchResult, i32) {
    open spec fn before(a: Self, b: Self) -> bool {
        a.1 > b.1 || (a.1 == b.1 && a.0.commits@.len() > b.0.commits@.len())
    }

    proof fn lemma_before_asymmetric(a: Self, b: Self) {
    }

    proof fn lemma_not_after_transitive(a: Self, b: Self, c: Self) {
    }

    fn sorts_before(&self, other: &Self) -> (r: bool) {
        self.1 > other.1 || (self.1 == other.1 && self.0.commits.len() > other.0.commits.len())
    }
}

/// The files found so far by a search: each path once, with the commits
/// that touched it and the best score it got (never below 0).
pub struct SearchIndex {
    entries: Vec<(FileSearchResult, i32)>,
}

/// Whether `path` is the path of some file of `files`.
pub open spec fn has_file(files: Seq<(FileSearchResult, i32)>, path: Seq<char>) -> bool {
    exists|i: int| 0 <= i < files.len() && (#[trigger] files[i]).0.path@ == path
}

/// The files after recording that the commit `hit` touched `path`, which
/// scored `score`: a known path gets the commit appended and keeps the
/// greater of its best score and `score`; a new path is added last with
/// that commit and the greater of `score` and 0.
pub open spec fn recorded(
    old_files: Seq<(FileSearchResult, i32)>,
    new_files: Seq<(FileSearchResult, i32)>,
    path: Seq<char>,
    hit: CommitFileMatch,
    score: int,
) -> bool {
    if has_file(old_files, path) {
        exists|i: int|
            #![trigger old_files[i]]
            {
                &&& 0 <= i < old_files.len()
                &&& old_files[i].0.path@ == path
                &&& new_files.len() == old_files.len()
                &&& forall|j: int|
                    0 <= j < new_files.len() && j != i ==> #[trigger] new_files[j] == old_files[j]
                &&& new_files[i].0.path == old_files[i].0.path
                &&& new_files[i].0.commits@ == old_files[i].0.commits@.push(hit)
                &&& new_files[i].1 == if score > old_files[i].1 {
                    score
                } else {
                    old_files[i].1 as int
                }
            }
    } else {
        &&& new_files.len() == old_files.len() + 1
        &&& new_files.drop_last() == old_files
        &&& new_files.last().0.path@ == path
        &&& new_files.last().0.commits@ == seq![hit]
        &&& new_files.last().1 == if score > 0 {
            score
        } else {
            0
        }
    }
}

/// Whether each path occurs once among `files` and no best score is
/// below 0.
pub open spec fn index_valid(files: Seq<(FileSearchResult, i32)>) -> bool {
    &&& forall|i: int, j: int|
        0 <= i < j < files.len() ==> (#[trigger] files[i]).0.path@ != (#[trigger] files[j]).0.path@
    &&& forall|i: int| 0 <= i < files.len() ==> (#[trigger] files[i]).1 >= 0
}

impl SearchIndex {
    #[verifier::type_invariant]
    closed spec fn wf(self) -> bool {
        index_valid(self.entries@)
    }

    /// The files found so far with their best scores, in the order they
    /// were first found.
    pub closed spec fn files(&self) -> Seq<(FileSearchResult, i32)> {
        self.entries@
    }

    /// An index with no files.
    pub fn new() -> (r: Self)
        ensures
            r.files().len() == 0,
            index_valid(r.files()),
    {
        SearchIndex { entries: Vec::new() }
    }

    /// Records that the commit `hit` touched `path`, which scored `score`:
    /// a new path is added with that commit and a best score of `score` or
    /// 0, whichever is greater; a known path gets the commit appended and
    /// keeps the greater of its best score and `score`.
    pub fn record(&mut self, path: String, hit: CommitFileMatch, score: i32)
        ensures
            recorded(old(self).files(), final(self).files(), path@, hit, score as int),
            index_valid(final(self).files()),
    {
        proof {
            use_type_invariant(&*self);
        }
        let ghost es = self.entries@;
        let mut entries: Vec<(FileSearchResult, i32)> = Vec::new();
        std::mem::swap(&mut entries, &mut self.entries);
        let mut i: usize = 0;
        let mut found: Option<usize> = None;
        while i < entries.len()
            invariant_except_break
                found is None,
            invariant
                entries@ == es,
                i <= es.len(),
                forall|j: int| 0 <= j < i ==> (#[trigger] es[j]).0.path@ != path@,
            ensures
                entries@ == es,
                match found {
                    Some(k) => k < es.len() && es[k as int].0.path@ == path@,
                    None => !has_file(es, path@),
                },
            decreases es.len() - i,
        {
            if str_eq(entries[i].0.path.as_str(), path.as_str()) {
                found = Some(i);
                break;
            }
            i = i + 1;
        }
        match found {
            Some(k) => {
                let (file, best) = entries.remove(k);
                let FileSearchResult { path: p, commits: mut hits } = file;
                hits.push(hit);
                let new_best = if score > best {
                    score
                } else {
                    best
                };
                entries.insert(k, (FileSearchResult { path: p, commits: hits }, new_best));
                proof {
                    assert(entries@ =~= es.update(k as int, entries@[k as int]));
                    assert(es[k as int].0.path@ == path@);
                }
            },
            None => {
                let mut hits: Vec<CommitFileMatch> = Vec::new();
                hits.push(hit);
                let best = if score > 0 {
                    score
                } else {
                    0
                };
                entries.push((FileSearchResult { path, commits: hits }, best));
                proof {
                    assert(entries@.drop_last() =~= es);
                    assert(entries@.last().0.commits@ =~= seq![hit]);
                }
            },
        }
        self.entries = entries;
    }

    /// The files found, best first (by score, then by number of commits),
    /// at most `limit` of them.
    pub fn into_results(self, limit: usize) -> (r: Vec<FileSearchResult>)
        ensures
            exists|ranked: Seq<(FileSearchResult, i32)>|
                #![trigger ranked.to_multiset()]
                {
                    &&& sorted_by_key(ranked)
                    &&& ranked.to_multiset() == self.files().to_multiset()
                    &&& r@.len() == (if limit < ranked.len() {
                        limit as int
                    } else {
                        ranked.len() as int
                    })
                    &&& forall|i: int| 0 <= i < r@.len() ==> #[trigger] r@[i] == ranked[i].0
                },
    {
        let ghost files = self.files();
        let SearchIndex { entries } = self;
        let mut ranked = sort_by_key(entries);
        let ghost all = ranked@;
        if limit < ranked.len() {
            ranked.truncate(limit);
        }
        let ghost kept = ranked@;
        let mut out: Vec<FileSearchResult> = Vec::new();
        let mut k: usize = 0;
        let n = ranked.len();
        while k < n
            invariant
                n == kept.len(),
                k <= n,
                ranked@ == kept.skip(k as int),
                out@.len() == k,
                forall|i: int| 0 <= i < k ==> #[trigger] out@[i] == kept[i].0,
            decreases n - k,
        {
            let (file, _score) = ranked.remove(0);
            out.push(file);
            proof {
                assert(ranked@ =~= kept.skip(k + 1));
            }
            k = k + 1;
        }
        proof {
            assert(forall|i: int| 0 <= i < out@.len() ==> out@[i] == all[i].0);
        }
        out
    }
}

/// Recording a hit keeps, for its path, the best single score seen: the
/// score kept is the greater of the path's earlier best and the new score
/// (0 for a path not seen before), so recording a score no better than the
/// best leaves the best as it was; the commit joins the path's commits,
/// and every other path keeps its entry.
pub proof fn lemma_record_keeps_best_score(
    old_files: Seq<(FileSearchResult, i32)>,
    new_files: Seq<(FileSearchResult, i32)>,
    path: Seq<char>,
    hit: CommitFileMatch,
    score: int,
)
    requires
        index_valid(old_files),
        recorded(old_files, new_files, path, hit, score),
    ensures
        has_file(new_files, path),
        forall|k: int|
            0 <= k < new_files.len() && (#[trigger] new_files[k]).0.path@ == path ==> {
                &&& new_files[k].1 >= score
                &&& new_files[k].1 >= 0
                &&& new_files[k].0.commits@.last() == hit
                &&& forall|j: int|
                    0 <= j < old_files.len() && (#[trigger] old_files[j]).0.path@ == path ==> {
                        &&& new_files[k].1 >= old_files[j].1
                        &&& (new_files[k].1 == old_files[j].1 || new_files[k].1 == score)
                        &&& (score <= old_files[j].1 ==> new_files[k].1 == old_files[j].1)
                        &&& new_files[k].0.commits@.len() == old_files[j].0.commits@.len() + 1
                    }
                &&& !has_file(old_files, path) ==> (new_files[k].1 == score || new_files[k].1 == 0)
                    && new_files[k].0.commits@.len() == 1
            },
        forall|k: int|
            0 <= k < new_files.len() && (#[trigger] new_files[k]).0.path@ != path ==> old_files.contains(
                new_files[k],
            ),
{
    if has_file(old_files, path) {
        let i = choose|i: int|
            #![trigger old_files[i]]
            {
                &&& 0 <= i < old_files.len()
                &&& old_files[i].0.path@ == path
                &&& new_files.len() == old_files.len()
                &&& forall|j: int|
                    0 <= j < new_files.len() && j != i ==> #[trigger] new_files[j] == old_files[j]
                &&& new_files[i].0.path == old_files[i].0.path
                &&& new_files[i].0.commits@ == old_files[i].0.commits@.push(hit)
                &&& new_files[i].1 == if score > old_files[i].1 {
                    score
                } else {
                    old_files[i].1 as int
                }
            };
        assert(new_files[i].0.path@ == path);
        assert forall|k: int|
            0 <= k < new_files.len() && (#[trigger] new_files[k]).0.path@ == path implies k == i by {
            if k != i {
                assert(new_files[k] == old_files[k]);
            }
        }
        assert forall|j: int|
            0 <= j < old_files.len() && (#[trigger] old_files[j]).0.path@ == path implies j == i by {
        }
        assert forall|k: int|
            0 <= k < new_files.len() && (#[trigger] new_files[k]).0.path@ != path implies old_files.contains(
            new_files[k]) by {
            assert(new_files[k] == old_files[k]);
        }
    } else {
        let n = old_files.len() as int;
        assert(new_files[n] == new_files.last());
        assert forall|k: int|
            0 <= k < new_files.len() && (#[trigger] new_files[k]).0.path@ == path implies k == n by {
            if k < n {
                assert(new_files[k] == new_files.drop_last()[k]);
            }
        }
        assert forall|k: int|
            0 <= k < new_files.len() && (#[trigger] new_files[k]).0.path@ != path implies old_files.contains(
            new_files[k]) by {
            assert(new_files[k] == new_files.drop_last()[k]);
        }
    }
}

/// Search results come best first: by best score, and among equal best
/// scores by number of commits, both from the highest down.
pub proof fn lemma_results_ranked(ranked: Seq<(FileSearchResult, i32)>)
    requires
        sorted_by_key(ranked),
    ensures
        forall|i: int, j: int|
            0 <= i < j < ranked.len() ==> (#[trigger] ranked[i]).1 >= (#[trigger] ranked[j]).1 && (
            ranked[i].1 == ranked[j].1 ==> ranked[i].0.commits@.len() >= ranked[j].0.commits@.len()),
{
    assert forall|i: int, j: int| 0 <= i < j < ranked.len() implies (#[trigger] ranked[i]).1 >= (
    #[trigger] ranked[j]).1 && (ranked[i].1 == ranked[j].1 ==> ranked[i].0.commits@.len()
        >= ranked[j].0.commits@.len()) by {
        assert(!<(FileSearchResult, i32) as KeyOrder>::before(ranked[j], ranked[i]));
    }
}

/// Records in `index` that the commit `hit` touched `path` when the file
/// name of `path`, lowercased, fuzzy-matches the lowercase query
/// `query_lower`, with the score of the match. A match whose score would
/// leave `i32` is passed over.
pub fn record_search_hit(index: &mut SearchIndex, query_lower: &str, path: &str, hit: CommitFileMatch)
    ensures
        ({
            let name = lowercase_text(file_name_text(path@));
            let verdict = fuzzy_verdict(query_lower@, name);
            if verdict.0 && !(scores_a_match(query_lower@, name) && !score_fits(
                query_lower@,
                name,
            )) {
                recorded(old(index).files(), final(index).files(), path@, hit, verdict.1)
            } else {
                final(index).files() == old(index).files()
            }
        }),
{
    let name = to_lowercase(file_name_of(path).as_str());
    match fuzzy_match_checked(query_lower, name.as_str()) {
        Some((matches, score)) => {
            if matches {
                index.record(path.to_owned(), hit, score);
            }
        },
        None => {},
    }
}

} // verus!
