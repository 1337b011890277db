//! The status of the paths of a working tree: from the flags that Git
//! reports for a path to the entry the user interface shows.

use vstd::prelude::*;
use vstd::string::*;

use crate::order::{
    chars_before, lemma_text_before_asymmetric, lemma_text_not_after_transitive, sort_by_key,
    sorted_by_key, text_before, KeyOrder,
};
use crate::text::chars_of;
use crate::types::{FileStatus, StatusEntry, StatusMatrix};

verus! {

/// The status flags that Git reports for one path.
#[derive(Debug, Clone, Copy)]
pub struct StatusFlags {
    pub index_new: bool,
    pub index_modified: bool,
    pub index_deleted: bool,
    pub index_renamed: bool,
    pub index_typechange: bool,
    pub wt_new: bool,
    pub wt_modified: bool,
    pub wt_deleted: bool,
    pub wt_typechange: bool,
    pub wt_renamed: bool,
    pub ignored: bool,
    pub conflicted: bool,
}

/// The staged part of a status: the staged change and the status it implies.
/// A conflict wins; then an added, modified, deleted or renamed index entry,
/// in that order.
pub open spec fn staged_part(f: StatusFlags) -> (Option<Seq<char>>, FileStatus) {
    if f.conflicted {
        (None, FileStatus::Conflicted)
    } else if f.index_new {
        (Some("added"@), FileStatus::Added)
    } else if f.index_modified {
        (Some("modified"@), FileStatus::Modified)
    } else if f.index_deleted {
        (Some("deleted"@), FileStatus::Deleted)
    } else if f.index_renamed {
        (Some("modified"@), FileStatus::Renamed)
    } else {
        (None, FileStatus::Untracked)
    }
}

/// The entry for a path with flags `f`: the unstaged change (a modified,
/// deleted, new or renamed working-tree file, in that order) sets the
/// status when the staged part left it untracked; a new working-tree file
/// marks the entry untracked.
pub open spec fn entry_spec(f: StatusFlags) -> (FileStatus, Option<Seq<char>>, Option<Seq<char>>, bool) {
    let (staged, s) = staged_part(f);
    if f.wt_modified {
        (
            if s == FileStatus::Untracked {
                FileStatus::Modified
            } else {
                s
            },
            staged,
            Some("modified"@),
            false,
        )
    } else if f.wt_deleted {
        (
            if s == FileStatus::Untracked {
                FileStatus::Deleted
            } else {
                s
            },
            staged,
            Some("deleted"@),
            false,
        )
    } else if f.wt_new {
        (FileStatus::Untracked, staged, None, true)
    } else if f.wt_renamed {
        (
            if s == FileStatus::Untracked {
                FileStatus::Renamed
            } else {
                s
            },
            staged,
            Some("modified"@),
            false,
        )
    } else {
        (s, staged, None, false)
    }
}

/// The text of an optional string.
pub open spec fn opt_text(o: Option<String>) -> Option<Seq<char>> {
    match o {
        Some(s) => Some(s@),
        None => None,
    }
}

/// The entry for `path` with the given flags, as `entry_spec` states.
pub open spec fn entry_matches(e: StatusEntry, path: Seq<char>, f: StatusFlags) -> bool {
    let (status, staged, unstaged, untracked) = entry_spec(f);
    &&& e.path@ == path
    &&& e.status == status
    &&& opt_text(e.staged_status) == staged
    &&& opt_text(e.unstaged_status) == unstaged
    &&& e.untracked == untracked
}

fn text(s: &str) -> (r: String)
    ensures
        r@ == s@,
{
    s.to_owned()
}

/// Turns the flags Git reports for `path` into the entry shown for it.
pub fn parse_status_entry(path: String, status: StatusFlags) -> (e: StatusEntry)
    ensures
        entry_matches(e, path@, status),
{
    let ghost p = path@;
    let mut staged_status: Option<String> = None;
    let mut unstaged_status: Option<String> = None;
    let mut file_status = FileStatus::Untracked;
    let mut untracked = false;
    if status.conflicted {
        file_status = FileStatus::Conflicted;
    } else if status.index_new {
        staged_status = Some(text("added"));
        file_status = FileStatus::Added;
    } else if status.index_modified {
        staged_status = Some(text("modified"));
        file_status = FileStatus::Modified;
    } else if status.index_deleted {
        staged_status = Some(text("deleted"));
        file_status = FileStatus::Deleted;
    } else if status.index_renamed {
        staged_status = Some(text("modified"));
        file_status = FileStatus::Renamed;
    }
    if status.wt_modified {
        unstaged_status = Some(text("modified"));
        if file_status == FileStatus::Untracked {
            file_status = FileStatus::Modified;
        }
    } else if status.wt_deleted {
        unstaged_status = Some(text("deleted"));
        if file_status == FileStatus::Untracked {
            file_status = FileStatus::Deleted;
        }
    } else if status.wt_new {
        untracked = true;
        file_status = FileStatus::Untracked;
    } else if status.wt_renamed {
        unstaged_status = Some(text("modified"));
        if file_status == FileStatus::Untracked {
            file_status = FileStatus::Renamed;
        }
    }
    StatusEntry {
        path,
        status: file_status,
        staged_status,
        unstaged_status,
        untracked,
    }
}

/// Whether Git reports no conflict and no change in the index for a path.
pub open spec fn index_unchanged(f: StatusFlags) -> bool {
    !f.conflicted && !f.index_new && !f.index_modified && !f.index_deleted && !f.index_renamed
}

/// Whether the working-tree file is new (and not also modified or deleted).
pub open spec fn new_in_worktree(f: StatusFlags) -> bool {
    f.wt_new && !f.wt_modified && !f.wt_deleted
}

/// With nothing staged, the working tree decides the entry: an edited file
/// is modified, a removed one deleted, a new one untracked, a renamed one
/// renamed, and a path with no change at all is shown as untracked. Only a
/// new working-tree file is marked untracked.
pub proof fn lemma_unstaged_change_decides(e: StatusEntry, path: Seq<char>, f: StatusFlags)
    requires
        entry_matches(e, path, f),
        index_unchanged(f),
    ensures
        e.staged_status is None,
        f.wt_modified ==> e.status == FileStatus::Modified && opt_text(e.unstaged_status) == Some(
            "modified"@,
        ) && !e.untracked,
        !f.wt_modified && f.wt_deleted ==> e.status == FileStatus::Deleted && opt_text(
            e.unstaged_status,
        ) == Some("deleted"@) && !e.untracked,
        new_in_worktree(f) ==> e.status == FileStatus::Untracked && e.unstaged_status is None
            && e.untracked,
        !f.wt_modified && !f.wt_deleted && !f.wt_new && f.wt_renamed ==> e.status
            == FileStatus::Renamed && opt_text(e.unstaged_status) == Some("modified"@),
        !f.wt_modified && !f.wt_deleted && !f.wt_new && !f.wt_renamed ==> e.status
            == FileStatus::Untracked && e.unstaged_status is None && !e.untracked,
{
}

/// A staged change decides the status, whatever the working tree holds,
/// unless the working-tree file is new: a conflict first, then an added,
/// modified, deleted or renamed index entry. The staged change shown
/// follows the index alone.
pub proof fn lemma_staged_change_decides(e: StatusEntry, path: Seq<char>, f: StatusFlags)
    requires
        entry_matches(e, path, f),
    ensures
        f.conflicted ==> e.staged_status is None,
        f.conflicted && !new_in_worktree(f) ==> e.status == FileStatus::Conflicted,
        !f.conflicted && f.index_new ==> opt_text(e.staged_status) == Some("added"@),
        !f.conflicted && f.index_new && !new_in_worktree(f) ==> e.status == FileStatus::Added,
        !f.conflicted && !f.index_new && f.index_modified ==> opt_text(e.staged_status) == Some(
            "modified"@,
        ),
        !f.conflicted && !f.index_new && f.index_modified && !new_in_worktree(f) ==> e.status
            == FileStatus::Modified,
        !f.conflicted && !f.index_new && !f.index_modified && f.index_deleted ==> opt_text(
            e.staged_status,
        ) == Some("deleted"@),
        !f.conflicted && !f.index_new && !f.index_modified && f.index_deleted && !new_in_worktree(f)
            ==> e.status == FileStatus::Deleted,
        !f.conflicted && !f.index_new && !f.index_modified && !f.index_deleted && f.index_renamed
            ==> opt_text(e.staged_status) == Some("modified"@),
        !f.conflicted && !f.index_new && !f.index_modified && !f.index_deleted && f.index_renamed
            && !new_in_worktree(f) ==> e.status == FileStatus::Renamed,
        index_unchanged(f) ==> e.staged_status is None,
{
}

/// An entry is marked untracked exactly when its working-tree file is new,
/// and it then shows as untracked with no unstaged change; an unstaged
/// change is shown exactly for a modified, deleted or renamed working-tree
/// file that is not new.
pub proof fn lemma_untracked_means_new_file(e: StatusEntry, path: Seq<char>, f: StatusFlags)
    requires
        entry_matches(e, path, f),
    ensures
        e.path@ == path,
        e.untracked <==> new_in_worktree(f),
        e.untracked ==> e.status == FileStatus::Untracked && e.unstaged_status is None,
        e.unstaged_status is Some <==> (f.wt_modified || f.wt_deleted || (!f.wt_new
            && f.wt_renamed)),
        e.status == FileStatus::Untracked ==> new_in_worktree(f) || (index_unchanged(f)
            && !f.wt_modified && !f.wt_deleted && !f.wt_renamed),
{
}

/// Whether a path with these flags has changes, staged or not, that a
/// restore must not overwrite: a new, modified or deleted index entry or
/// working-tree file.
pub open spec fn flags_dirty(f: StatusFlags) -> bool {
    f.index_modified || f.index_new || f.index_deleted || f.wt_modified || f.wt_deleted || f.wt_new
}

/// A staged addition, modification or deletion, and a new, modified or
/// deleted working-tree file, each make a file dirty on its own; a file
/// with none of them (only renamed, retyped, ignored or conflicted) is
/// clean.
pub proof fn lemma_dirty_flags(f: StatusFlags)
    ensures
        f.index_modified ==> flags_dirty(f),
        f.index_new ==> flags_dirty(f),
        f.index_deleted ==> flags_dirty(f),
        f.wt_modified ==> flags_dirty(f),
        f.wt_deleted ==> flags_dirty(f),
        f.wt_new ==> flags_dirty(f),
        !f.index_modified && !f.index_new && !f.index_deleted && !f.wt_modified && !f.wt_deleted
            && !f.wt_new ==> !flags_dirty(f),
{
}

/// Whether a file is dirty, given the flags Git reports for it (none when
/// Git reports nothing for the path).
pub fn is_dirty(status: Option<StatusFlags>) -> (b: bool)
    ensures
        b == match status {
            Some(f) => flags_dirty(f),
            None => false,
        },
{
    match status {
        None => false,
        Some(f) => f.index_modified || f.index_new || f.index_deleted || f.wt_modified
            || f.wt_deleted || f.wt_new,
    }
}

// ---------------------------------------------------------------------------
// The status matrix
// ---------------------------------------------------------------------------

impl KeyOrder for StatusEntry {
    open spec fn before(a: Self, b: Self) -> bool {
        text_before(a.path@, b.path@)
    }

    proof fn lemma_before_asymmetric(a: Self, b: Self) {
        lemma_text_before_asymmetric(a.path@, b.path@);
    }

    proof fn lemma_not_after_transitive(a: Self, b: Self, c: Self) {
        lemma_text_not_after_transitive(a.path@, b.path@, c.path@);
    }

    fn sorts_before(&self, other: &Self) -> (r: bool) {
        let a = chars_of(self.path.as_str());
        let b = chars_of(other.path.as_str());
        chars_before(a.as_slice(), b.as_slice())
    }
}

/// Whether `entries` are the entries for `reported`, one for one.
pub open spec fn entries_for(entries: Seq<StatusEntry>, reported: Seq<(String, StatusFlags)>) -> bool {
    &&& entries.len() == reported.len()
    &&& forall|i: int|
        0 <= i < entries.len() ==> entry_matches(#[trigger] entries[i], reported[i].0@, reported[i].1)
}

/// The status of a working tree from the flags Git reports for each path:
/// the entries for the reported paths, ordered by path.
pub fn build_status_matrix(reported: &Vec<(String, StatusFlags)>) -> (m: StatusMatrix)
    ensures
        sorted_by_key(m.entries@),
        exists|parsed: Seq<StatusEntry>|
            entries_for(parsed, reported@) && #[trigger] parsed.to_multiset()
                == m.entries@.to_multiset(),
{
    let mut entries: Vec<StatusEntry> = Vec::new();
    let mut i: usize = 0;
    while i < reported.len()
        invariant
            i <= reported@.len(),
            entries_for(entries@, reported@.take(i as int)),
        decreases reported@.len() - i,
    {
        let path = reported[i].0.clone();
        let entry = parse_status_entry(path, reported[i].1);
        entries.push(entry);
        i = i + 1;
    }
    assert(reported@.take(reported@.len() as int) =~= reported@);
    let ghost parsed = entries@;
    let sorted = sort_by_key(entries);
    StatusMatrix { entries: sorted }
}

/// The status lists its entries by path, in text order: no entry's path
/// comes before the path of an entry ahead of it.
pub proof fn lemma_status_ordered_by_path(entries: Seq<StatusEntry>)
    requires
        sorted_by_key(entries),
    ensures
        forall|i: int, j: int|
            0 <= i < j < entries.len() ==> !text_before(
                (#[trigger] entries[j]).path@,
                (#[trigger] entries[i]).path@,
            ),
{
    assert forall|i: int, j: int| 0 <= i < j < entries.len() implies !text_before(
        (#[trigger] entries[j]).path@,
        (#[trigger] entries[i]).path@,
    ) by {
        assert(!<StatusEntry as KeyOrder>::before(entries[j], entries[i]));
    }
}

/// Every path Git reports shows up in the status: for each reported path
/// some entry of a status built from the reports has that path, with the
/// entry the flags call for.
pub proof fn lemma_status_lists_every_path(
    parsed: Seq<StatusEntry>,
    entries: Seq<StatusEntry>,
    reported: Seq<(String, StatusFlags)>,
    i: int,
)
    requires
        entries_for(parsed, reported),
        parsed.to_multiset() == entries.to_multiset(),
        0 <= i < reported.len(),
    ensures
        exists|j: int|
            0 <= j < entries.len() && entry_matches(#[trigger] entries[j], reported[i].0@, reported[i].1),
{
    broadcast use vstd::seq_lib::group_to_multiset_ensures;

    let e = parsed[i];
    assert(parsed.contains(e));
    assert(entries.to_multiset().count(e) > 0);
    assert(entries.contains(e));
    let j = choose|j: int| 0 <= j < entries.len() && entries[j] == e;
    assert(entry_matches(entries[j], reported[i].0@, reported[i].1));
}

} // verus!
