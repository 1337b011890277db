//! Discarding changes with a backup first, and restoring from backups:
//! which files are backed up, how backups are listed, and where a restored
//! file is written.

use vstd::prelude::*;
use vstd::string::*;

use crate::order::{lemma_text_before_asymmetric, lemma_text_not_after_transitive, sort_by_key, text_before, KeyOrder};
use crate::status::StatusFlags;
use crate::status::{flags_dirty, is_dirty, lemma_dirty_flags};
use crate::text::{chars_of, string_from_chars};
use crate::types::StatusMatrix;
use crate::paths::{
    has_component, lemma_segments_join, lemma_segments_of_name, segments, starts_with_dir, within,
};

verus! {

/// The status after a discard, and the backup that holds the discarded
/// content (none when nothing was backed up).
#[derive(Debug, Clone)]
pub struct DiscardResult {
    pub status: StatusMatrix,
    pub backup_timestamp: Option<String>,
}

/// Why a discard or a restore is refused.
#[derive(Debug, Clone)]
pub enum DiscardError {
    /// Discarding single hunks is not supported.
    HunksUnsupported,
    /// A path to restore climbs out of its directory.
    PathTraversal { path: String },
    /// The backup has no file at this path.
    BackupNotFound { backup_id: String, path: String },
    /// The backup has no file at this path (restoring several files).
    BackupFileNotFound { backup_id: String, path: String },
    /// The file would be written outside the working directory.
    OutsideWorkdir { path: String },
    /// The repository is bare.
    NoWorkdir,
}

/// The text of each refusal.
pub open spec fn discard_error_text(e: DiscardError) -> Seq<char> {
    match e {
        DiscardError::HunksUnsupported =>
            "Discarding specific hunks is not yet implemented. Use discard_file for entire file."@,
        DiscardError::PathTraversal { path } => "Path traversal not allowed: "@ + path@,
        DiscardError::BackupNotFound { backup_id, path } => "Backup not found: "@ + backup_id@
            + "/"@ + path@,
        DiscardError::BackupFileNotFound { backup_id, path } => "Backup file not found: "@
            + backup_id@ + "/"@ + path@,
        DiscardError::OutsideWorkdir { path } => "Target path is outside working directory: "@
            + path@,
        DiscardError::NoWorkdir => "Repository has no working directory"@,
    }
}

impl DiscardError {
    /// The message shown for this refusal.
    pub fn message(&self) -> (m: String)
        ensures
            m@ == discard_error_text(*self),
    {
        let mut m = String::new();
        match self {
            DiscardError::HunksUnsupported => {
                m.append(
                    "Discarding specific hunks is not yet implemented. Use discard_file for entire file.",
                );
            },
            DiscardError::PathTraversal { path } => {
                m.append("Path traversal not allowed: ");
                m.append(path.as_str());
            },
            DiscardError::BackupNotFound { backup_id, path } => {
                m.append("Backup not found: ");
                m.append(backup_id.as_str());
                m.append("/");
                m.append(path.as_str());
            },
            DiscardError::BackupFileNotFound { backup_id, path } => {
                m.append("Backup file not found: ");
                m.append(backup_id.as_str());
                m.append("/");
                m.append(path.as_str());
            },
            DiscardError::OutsideWorkdir { path } => {
                m.append("Target path is outside working directory: ");
                m.append(path.as_str());
            },
            DiscardError::NoWorkdir => {
                m.append("Repository has no working directory");
            },
        }
        m
    }
}

/// Checks a discard request: only whole files (no hunk list) can be
/// discarded.
pub fn check_discard_request(hunks: Option<&[usize]>) -> (r: Result<(), DiscardError>)
    ensures
        r is Ok <==> hunks is None,
        r matches Err(e) ==> e == DiscardError::HunksUnsupported,
{
    match hunks {
        Some(_) => Err(DiscardError::HunksUnsupported),
        None => Ok(()),
    }
}

/// How a file's changes are discarded.
#[derive(Debug, Clone, Copy, PartialEq, Eq, Structural)]
pub enum DiscardAction {
    /// Check the file out from HEAD and reset its index entry.
    CheckoutFromHead,
    /// Delete the file: HEAD does not have it.
    RemoveFile,
    /// Nothing to do: neither HEAD nor the working tree has the file.
    Nothing,
}

/// How to discard a file, given whether HEAD has it and whether it exists
/// in the working tree.
pub fn discard_action(in_head: bool, exists: bool) -> (a: DiscardAction)
    ensures
        a == (if in_head {
            DiscardAction::CheckoutFromHead
        } else if exists {
            DiscardAction::RemoveFile
        } else {
            DiscardAction::Nothing
        }),
{
    if in_head {
        DiscardAction::CheckoutFromHead
    } else if exists {
        DiscardAction::RemoveFile
    } else {
        DiscardAction::Nothing
    }
}

/// The flags of the index entry written back for a discarded file: its
/// path length in bytes, capped at `0xfff`.
pub fn index_entry_flags(path_len: usize) -> (f: u16)
    ensures
        f == (if path_len < 0xfff {
            path_len
        } else {
            0xfff
        }),
{
    if path_len < 0xfff {
        path_len as u16
    } else {
        0xfff
    }
}

// ---------------------------------------------------------------------------
// Backups
// ---------------------------------------------------------------------------

/// A decimal digit.
pub open spec fn is_digit(c: char) -> bool {
    '0' <= c && c <= '9'
}

/// The form of a backup timestamp `YYYYmmdd_HHMMSS`: digits, with `_`
/// before the last six; a year past 9999 is written with more digits after
/// a leading `+`.
pub open spec fn timestamp_form(s: Seq<char>) -> bool {
    &&& s.len() >= 15
    &&& s[s.len() - 7] == '_'
    &&& forall|i: int|
        0 <= i < s.len() && i != s.len() - 7 ==> is_digit(#[trigger] s[i]) || (i == 0 && s[i]
            == '+' && s.len() > 15)
}

/// `chrono::Utc::now` written with the `strftime`-style pattern `pattern`
/// (`DateTime::format`): the current UTC time as text. Only the pattern
/// `%Y%m%d_%H%M%S` is accepted (chrono fails on a malformed one, and
/// `to_string` then panics). The time depends on the clock, so only the form
/// of the text is stated: `Utc::now` gives a year from 1970 on, written
/// with four digits, or with a `+` and more digits past 9999, and the
/// other fields with two digits each.
#[verifier::external_body]
fn utc_now_formatted(pattern: &str) -> (s: String)
    requires
        pattern@ == "%Y%m%d_%H%M%S"@,
    ensures
        timestamp_form(s@),
{
    chrono::Utc::now().format(pattern).to_string()
}

/// The backup to make before discarding a file: none when the file does not
/// exist or looks binary, else a backup named by the current UTC time as
/// `YYYYmmdd_HHMMSS`.
pub fn backup_timestamp(exists: bool, looks_binary: bool) -> (r: Option<String>)
    ensures
        r is Some <==> exists && !looks_binary,
        r matches Some(t) ==> timestamp_form(t@),
{
    if !exists {
        return None;
    }
    if looks_binary {
        return None;
    }
    Some(utc_now_formatted("%Y%m%d_%H%M%S"))
}

impl KeyOrder for String {
    open spec fn before(a: Self, b: Self) -> bool {
        text_before(a@, b@)
    }

    proof fn lemma_before_asymmetric(a: Self, b: Self) {
        lemma_text_before_asymmetric(a@, b@);
    }

    proof fn lemma_not_after_transitive(a: Self, b: Self, c: Self) {
        lemma_text_not_after_transitive(a@, b@, c@);
    }

    fn sorts_before(&self, other: &Self) -> (r: bool) {
        let a = chars_of(self.as_str());
        let b = chars_of(other.as_str());
        crate::order::chars_before(a.as_slice(), b.as_slice())
    }
}

/// The backups, named by timestamp, from the most recent to the oldest: the
/// same names, none after a name that comes later in text order.
pub fn newest_first(names: Vec<String>) -> (r: Vec<String>)
    ensures
        r@.to_multiset() == names@.to_multiset(),
        forall|i: int, j: int| 0 <= i < j < r@.len() ==> !text_before(#[trigger] r@[i]@, #[trigger] r@[j]@),
{
    let mut sorted = sort_by_key(names);
    let ghost ascending = sorted@;
    let mut out: Vec<String> = Vec::new();
    let n = sorted.len();
    while sorted.len() > 0
        invariant
            n == ascending.len(),
            sorted@.len() <= n,
            sorted@ == ascending.take(sorted@.len() as int),
            out@ == ascending.skip(sorted@.len() as int).reverse(),
        decreases sorted@.len(),
    {
        let ghost k = sorted@.len();
        let ghost before = sorted@;
        let ghost out_before = out@;
        let x = sorted.pop().unwrap();
        out.push(x);
        proof {
            assert(x == ascending[k - 1]);
            assert(sorted@ =~= ascending.take(k - 1));
            assert(ascending.skip(k - 1).reverse() =~= ascending.skip(k as int).reverse().push(
                ascending[k - 1],
            ));
        }
    }
    proof {
        assert(ascending.skip(0) =~= ascending);
        ascending.lemma_reverse_to_multiset();
        assert forall|i: int, j: int| 0 <= i < j < out@.len() implies !text_before(
            #[trigger] out@[i]@,
            #[trigger] out@[j]@,
        ) by {
            let a = n - 1 - i;
            let b = n - 1 - j;
            assert(out@[i] == ascending[a]);
            assert(out@[j] == ascending[b]);
            assert(!String::before(ascending[a], ascending[b]));
        }
    }
    out
}

/// A backup file path with `\` separators written as `/`.
pub open spec fn forward_slashes(path: Seq<char>) -> Seq<char> {
    path.map_values(|c: char| if c == '\\' { '/' } else { c })
}

/// Writes the separators of a backup file path as `/`.
pub fn normalize_separators(path: &str) -> (r: String)
    ensures
        r@ == forward_slashes(path@),
{
    let cs = chars_of(path);
    let mut out: Vec<char> = Vec::new();
    let mut i: usize = 0;
    while i < cs.len()
        invariant
            cs@ == path@,
            i <= cs@.len(),
            out@ == forward_slashes(cs@.take(i as int)),
        decreases cs@.len() - i,
    {
        let c = cs[i];
        if c == '\\' {
            out.push('/');
        } else {
            out.push(c);
        }
        assert(forward_slashes(cs@.take(i + 1)) =~= forward_slashes(cs@.take(i as int)).push(
            if c == '\\' {
                '/'
            } else {
                c
            },
        ));
        i = i + 1;
    }
    assert(cs@.take(cs@.len() as int) =~= cs@);
    string_from_chars(out.as_slice())
}

// ---------------------------------------------------------------------------
// Restoring
// ---------------------------------------------------------------------------

/// Whether `path` has a `..` component.
pub open spec fn climbs_out(path: Seq<char>) -> bool {
    segments(path).contains(".."@)
}

/// A path is refused for climbing out exactly by a `..` component: a path
/// that goes through `..` anywhere climbs out, and a file name other than
/// `..` (such as `..notes` or `a..b`) in a directory that does not climb
/// out does not.
pub proof fn lemma_climbs_out_by_component(dir: Seq<char>, name: Seq<char>, rest: Seq<char>)
    ensures
        climbs_out(dir + seq!['/'] + ".."@ + seq!['/'] + rest),
        climbs_out(".."@ + seq!['/'] + rest),
        !climbs_out(dir) && !name.contains('/') && name != ".."@ ==> !climbs_out(
            dir + seq!['/'] + name,
        ),
{
    let g = ".."@;
    assert(!g.contains('/')) by {
        reveal_strlit("..");
        if g.contains('/') {
            let k = choose|k: int| 0 <= k < g.len() && g[k] == '/';
        }
    }
    lemma_segments_join(dir, g + seq!['/'] + rest);
    lemma_segments_join(g, rest);
    lemma_segments_of_name(g);
    assert(dir + seq!['/'] + g + seq!['/'] + rest =~= dir + seq!['/'] + (g + seq!['/'] + rest));
    let all = segments(dir) + (seq![g] + segments(rest));
    assert(all[segments(dir).len() as int] == g);
    assert((seq![g] + segments(rest))[0] == g);
    if !segments(dir).contains(g) && !name.contains('/') && name != g {
        lemma_segments_join(dir, name);
        lemma_segments_of_name(name);
        let s = segments(dir) + seq![name];
        if s.contains(g) {
            let k = choose|k: int| 0 <= k < s.len() && s[k] == g;
            if k < segments(dir).len() {
                assert(segments(dir)[k] == g);
            }
        }
    }
}

/// Checks a path to restore: it may not have a `..` component.
pub fn check_restore_path(path: &str) -> (r: Result<(), DiscardError>)
    ensures
        r is Ok <==> !climbs_out(path@),
        r matches Err(e) ==> e matches DiscardError::PathTraversal { path: p } && p@ == path@,
{
    if has_component(path, "..") {
        Err(DiscardError::PathTraversal { path: path.to_owned() })
    } else {
        Ok(())
    }
}

/// Where a restored file is written: over the file itself when it is
/// clean, else beside it with a `.restore` suffix so that no work is lost.
pub open spec fn restore_target_text(path: Seq<char>, dirty: bool) -> Seq<char> {
    if dirty {
        path + ".restore"@
    } else {
        path
    }
}

/// Restoring never overwrites work: the backup of a dirty file is written
/// beside it, under another name.
pub proof fn lemma_dirty_restore_keeps_file(path: Seq<char>)
    ensures
        restore_target_text(path, true) != path,
        restore_target_text(path, false) == path,
{
    assert(restore_target_text(path, true).len() == path.len() + 8) by {
        reveal_strlit(".restore");
    }
}

/// A backup is restored beside a file with staged or unstaged changes (a
/// staged addition, modification or deletion, or a new, modified or
/// deleted working-tree file), under the name `path.restore`, never over
/// the file itself; over a file that Git reports no such change for, or
/// nothing at all, it is restored in place.
pub proof fn lemma_restore_spares_changed_file(path: Seq<char>, status: Option<StatusFlags>)
    ensures
        ({
            let target = restore_target_text(
                path,
                match status {
                    Some(f) => flags_dirty(f),
                    None => false,
                },
            );
            &&& (status matches Some(f) && (f.index_modified || f.index_new || f.index_deleted
                || f.wt_modified || f.wt_deleted || f.wt_new)) ==> target == path + ".restore"@
                && target != path
            &&& (status matches Some(f) && !(f.index_modified || f.index_new || f.index_deleted
                || f.wt_modified || f.wt_deleted || f.wt_new)) ==> target == path
            &&& status is None ==> target == path
        }),
{
    lemma_dirty_restore_keeps_file(path);
    if let Some(f) = status {
        lemma_dirty_flags(f);
    }
}

/// Where the backup of `path` is restored, given the status flags Git
/// reports for the file (none when it reports nothing).
pub fn restore_target(path: &str, status: Option<StatusFlags>) -> (r: String)
    ensures
        r@ == restore_target_text(
            path@,
            match status {
                Some(f) => flags_dirty(f),
                None => false,
            },
        ),
{
    let mut r = path.to_owned();
    if is_dirty(status) {
        r.append(".restore");
    }
    r
}

/// Checks where a restored file of `path` lands: the resolved `target`
/// must lie within the resolved working directory `workdir`.
pub fn check_within_workdir(path: &str, target: &str, workdir: &str) -> (r: Result<
    (),
    DiscardError,
>)
    ensures
        r is Ok <==> within(target@, workdir@),
        r matches Err(e) ==> e matches DiscardError::OutsideWorkdir { path: p } && p@ == path@,
{
    if starts_with_dir(target, workdir) {
        Ok(())
    } else {
        Err(DiscardError::OutsideWorkdir { path: path.to_owned() })
    }
}

/// Checks where a restored file of `path` lands, from what the disk says:
/// `canonical_target` is the resolved form of the target `target` when a
/// file is there, `canonical_parent` the resolved form of its directory
/// when only that exists. A resolved target that differs from `target`
/// must lie within `workdir`; so must the resolved directory of a new file.
pub fn check_restore_location(
    path: &str,
    target: &str,
    canonical_target: Option<&str>,
    canonical_parent: Option<&str>,
    workdir: &str,
) -> (r: Result<(), DiscardError>)
    ensures
        r is Ok <==> match canonical_target {
            Some(t) => t@ != target@ ==> within(t@, workdir@),
            None => match canonical_parent {
                Some(d) => within(d@, workdir@),
                None => true,
            },
        },
        r matches Err(e) ==> e matches DiscardError::OutsideWorkdir { path: p } && p@ == path@,
{
    match canonical_target {
        Some(t) => {
            if crate::repo::str_eq(t, target) {
                Ok(())
            } else {
                check_within_workdir(path, t, workdir)
            }
        },
        None => match canonical_parent {
            Some(d) => check_within_workdir(path, d, workdir),
            None => Ok(()),
        },
    }
}

} // verus!
