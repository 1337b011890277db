//! The staging rules: which hunk or which lines of a diff may be staged or
//! unstaged, and the patch that the index receives for each request.

use vstd::prelude::*;
use vstd::string::*;

use crate::patch::{
    build_patch, build_reverse_patch, contains_index, filtered_text, is_addition, is_context,
    is_deletion, kept, lemma_single_char_seq, line_text, lines_text, new_side_count,
    old_side_count, patch_text, range_header, reverse_patch_text, single_char,
};
use crate::text::{decimal, push_decimal};
use crate::types::{DiffHunk, DiffLine, DiffSide, FileDiff};

verus! {

/// Why a staging request is refused.
#[derive(Debug, Clone)]
pub enum StageError {
    /// The file has no hunk to stage.
    NoChanges { path: String },
    /// The hunk index is not that of a hunk of the diff.
    HunkOutOfBounds { index: usize },
    /// A selected line index is not that of a line of the hunk.
    LineOutOfBounds { index: usize },
    /// A selected line is a context line.
    ContextLine { index: usize },
    /// The selection holds both added and deleted lines.
    MixedSelection,
    /// The selection holds deleted lines (and no added ones).
    DeletedLines,
    /// Lines cannot be unstaged one by one.
    UnstageLinesUnsupported,
    /// Git cannot read the patch built for the request.
    PatchUnreadable,
}

/// The text of each refusal.
pub open spec fn stage_error_text(e: StageError) -> Seq<char> {
    match e {
        StageError::NoChanges { path } => "No changes to stage for file: "@ + path@,
        StageError::HunkOutOfBounds { index } => "Hunk index "@ + decimal(index as nat)
            + " out of bounds"@,
        StageError::LineOutOfBounds { index } => "Line index "@ + decimal(index as nat)
            + " out of bounds"@,
        StageError::ContextLine { index } => "Cannot stage context lines (line "@ + decimal(
            index as nat,
        ) + "). Only added ('+') lines can be staged individually."@,
        StageError::MixedSelection =>
            "UNSUPPORTED_LINE_SELECTION: Cannot stage a mix of added and deleted lines. Please select only added lines."@,
        StageError::DeletedLines =>
            "UNSUPPORTED_LINE_SELECTION: Staging deleted lines is not yet supported. Only added ('+') lines can be staged individually."@,
        StageError::UnstageLinesUnsupported => "Unstaging individual lines is not yet supported"@,
        StageError::PatchUnreadable => "Failed to parse patch"@,
    }
}

impl StageError {
    /// The message shown for this refusal.
    pub fn message(&self) -> (m: String)
        ensures
            m@ == stage_error_text(*self),
    {
        let mut m = String::new();
        match self {
            StageError::NoChanges { path } => {
                m.append("No changes to stage for file: ");
                m.append(path.as_str());
            },
            StageError::HunkOutOfBounds { index } => {
                m.append("Hunk index ");
                push_decimal(&mut m, *index as u64);
                m.append(" out of bounds");
            },
            StageError::LineOutOfBounds { index } => {
                m.append("Line index ");
                push_decimal(&mut m, *index as u64);
                m.append(" out of bounds");
            },
            StageError::ContextLine { index } => {
                m.append("Cannot stage context lines (line ");
                push_decimal(&mut m, *index as u64);
                m.append("). Only added ('+') lines can be staged individually.");
            },
            StageError::MixedSelection => {
                m.append(
                    "UNSUPPORTED_LINE_SELECTION: Cannot stage a mix of added and deleted lines. Please select only added lines.",
                );
            },
            StageError::DeletedLines => {
                m.append(
                    "UNSUPPORTED_LINE_SELECTION: Staging deleted lines is not yet supported. Only added ('+') lines can be staged individually.",
                );
            },
            StageError::UnstageLinesUnsupported => {
                m.append("Unstaging individual lines is not yet supported");
            },
            StageError::PatchUnreadable => {
                m.append("Failed to parse patch");
            },
        }
        assert(m@ =~= stage_error_text(*self));
        m
    }
}

// ---------------------------------------------------------------------------
// Line selections
// ---------------------------------------------------------------------------

/// The state of a scan of a selection, left to right.
pub enum SelectionScan {
    /// The scan stopped at a refused line.
    Rejected(StageError),
    /// Every line so far was accepted; which kinds were seen.
    Accepted { additions: bool, deletions: bool },
}

/// The scan of the first `n` selected indices: the first index out of
/// bounds or on a context line stops it; added and deleted lines are noted.
pub open spec fn scan_selection(lines: Seq<DiffLine>, selection: Seq<usize>, n: int) -> SelectionScan
    decreases n,
{
    if n <= 0 {
        SelectionScan::Accepted { additions: false, deletions: false }
    } else {
        match scan_selection(lines, selection, n - 1) {
            SelectionScan::Rejected(e) => SelectionScan::Rejected(e),
            SelectionScan::Accepted { additions, deletions } => {
                let idx = selection[n - 1];
                if idx >= lines.len() {
                    SelectionScan::Rejected(StageError::LineOutOfBounds { index: idx })
                } else if is_addition(lines[idx as int]) {
                    SelectionScan::Accepted { additions: true, deletions }
                } else if is_deletion(lines[idx as int]) {
                    SelectionScan::Accepted { additions, deletions: true }
                } else if is_context(lines[idx as int]) {
                    SelectionScan::Rejected(StageError::ContextLine { index: idx })
                } else {
                    SelectionScan::Accepted { additions, deletions }
                }
            },
        }
    }
}

/// Whether a selection of lines of a hunk may be staged, and if not why.
pub open spec fn selection_verdict(lines: Seq<DiffLine>, selection: Seq<usize>) -> Result<
    (),
    StageError,
> {
    match scan_selection(lines, selection, selection.len() as int) {
        SelectionScan::Rejected(e) => Err(e),
        SelectionScan::Accepted { additions, deletions } => if additions && deletions {
            Err(StageError::MixedSelection)
        } else if deletions {
            Err(StageError::DeletedLines)
        } else {
            Ok(())
        },
    }
}

/// Whether the selection of lines of hunk `hunk_index` of `diff` may be
/// staged, and if not why.
pub open spec fn line_selection_verdict(diff: FileDiff, hunk_index: usize, selection: Seq<usize>) -> Result<
    (),
    StageError,
> {
    if hunk_index >= diff.hunks@.len() {
        Err(StageError::HunkOutOfBounds { index: hunk_index })
    } else {
        selection_verdict(diff.hunks@[hunk_index as int].lines@, selection)
    }
}

/// Checks that the lines `line_indices` of hunk `hunk_index` of the
/// working-tree diff can be staged on their own: the hunk and every line
/// must exist, no line may be a context line, and only added lines may be
/// chosen.
pub fn validate_line_selection(file_diff: &FileDiff, hunk_index: usize, line_indices: &[usize]) -> (r:
    Result<(), StageError>)
    ensures
        r == line_selection_verdict(*file_diff, hunk_index, line_indices@),
{
    if hunk_index >= file_diff.hunks.len() {
        return Err(StageError::HunkOutOfBounds { index: hunk_index });
    }
    let hunk = &file_diff.hunks[hunk_index];
    let ghost lines = hunk.lines@;
    let mut has_additions = false;
    let mut has_deletions = false;
    let mut k: usize = 0;
    while k < line_indices.len()
        invariant
            lines == hunk.lines@,
            hunk_index < file_diff.hunks@.len(),
            lines == file_diff.hunks@[hunk_index as int].lines@,
            k <= line_indices@.len(),
            scan_selection(lines, line_indices@, k as int) == (SelectionScan::Accepted {
                additions: has_additions,
                deletions: has_deletions,
            }),
        decreases line_indices@.len() - k,
    {
        let idx = line_indices[k];
        if idx >= hunk.lines.len() {
            proof {
                assert(scan_selection(lines, line_indices@, k + 1) == SelectionScan::Rejected(
                    StageError::LineOutOfBounds { index: idx },
                ));
                lemma_scan_stays_rejected(
                    lines,
                    line_indices@,
                    k + 1,
                    line_indices@.len() as int,
                );
            }
            return Err(StageError::LineOutOfBounds { index: idx });
        }
        let origin = single_char(&hunk.lines[idx].origin);
        proof {
            lemma_single_char_seq(lines[idx as int].origin@, ' ');
            lemma_single_char_seq(lines[idx as int].origin@, '-');
            lemma_single_char_seq(lines[idx as int].origin@, '+');
        }
        match origin {
            Some('+') => {
                has_additions = true;
            },
            Some('-') => {
                has_deletions = true;
            },
            Some(' ') => {
                proof {
                    assert(scan_selection(lines, line_indices@, k + 1) == SelectionScan::Rejected(
                        StageError::ContextLine { index: idx },
                    ));
                    lemma_scan_stays_rejected(
                        lines,
                        line_indices@,
                        k + 1,
                        line_indices@.len() as int,
                    );
                }
                return Err(StageError::ContextLine { index: idx });
            },
            _ => {},
        }
        k = k + 1;
    }
    if has_additions && has_deletions {
        return Err(StageError::MixedSelection);
    }
    if has_deletions {
        return Err(StageError::DeletedLines);
    }
    Ok(())
}

/// Once the scan is stopped it stays stopped, with the same reason.
pub proof fn lemma_scan_stays_rejected(lines: Seq<DiffLine>, selection: Seq<usize>, m: int, n: int)
    requires
        0 < m <= n,
        scan_selection(lines, selection, m) is Rejected,
    ensures
        scan_selection(lines, selection, n) == scan_selection(lines, selection, m),
    decreases n - m,
{
    if m < n {
        lemma_scan_stays_rejected(lines, selection, m, n - 1);
    }
}

// ---------------------------------------------------------------------------
// Patches for staging requests
// ---------------------------------------------------------------------------

/// The patch that a request to stage (or unstage) a whole hunk sends to the
/// index, or why the request is refused.
///
/// To stage, `file_diff` is the diff of the working tree against the index
/// and a file without hunks is refused; to unstage, it is the diff of the
/// index against HEAD and the patch is the reversed hunk.
pub open spec fn hunk_request_patch(
    path: Seq<char>,
    file_diff: FileDiff,
    hunk_index: usize,
    unstage: bool,
) -> Result<Seq<char>, StageError> {
    let hunks = file_diff.hunks@;
    if unstage {
        if hunk_index >= hunks.len() {
            Err(StageError::HunkOutOfBounds { index: hunk_index })
        } else {
            Ok(reverse_patch_text(file_diff.path@, hunks[hunk_index as int]))
        }
    } else if hunks.len() == 0 {
        Err(StageError::NoChanges { path: path_string(path) })
    } else if hunk_index >= hunks.len() {
        Err(StageError::HunkOutOfBounds { index: hunk_index })
    } else {
        Ok(patch_text(file_diff.path@, hunks[hunk_index as int], None))
    }
}

/// The string whose characters are `s`.
pub open spec fn path_string(s: Seq<char>) -> String {
    choose|p: String| p@ == s
}

/// Two refusals are the same refusal: the same variant with the same index,
/// or for a file without changes the same path text.
pub open spec fn same_refusal(a: StageError, b: StageError) -> bool {
    match (a, b) {
        (StageError::NoChanges { path: p }, StageError::NoChanges { path: q }) => p@ == q@,
        _ => a == b,
    }
}

/// The patch for a request to stage (`unstage == false`) or unstage hunk
/// `hunk_index` of the file at `path`, given the diff of the matching side.
pub fn hunk_patch(path: &str, file_diff: &FileDiff, hunk_index: usize, unstage: bool) -> (r: Result<
    String,
    StageError,
>)
    ensures
        match (r, hunk_request_patch(path@, *file_diff, hunk_index, unstage)) {
            (Ok(p), Ok(q)) => p@ == q,
            (Err(e), Err(f)) => same_refusal(e, f),
            _ => false,
        },
{
    if unstage {
        if hunk_index >= file_diff.hunks.len() {
            return Err(StageError::HunkOutOfBounds { index: hunk_index });
        }
        return Ok(build_reverse_patch(file_diff.path.as_str(), &file_diff.hunks[hunk_index]));
    }
    if file_diff.hunks.len() == 0 {
        let p = path.to_owned();
        return Err(StageError::NoChanges { path: p });
    }
    if hunk_index >= file_diff.hunks.len() {
        return Err(StageError::HunkOutOfBounds { index: hunk_index });
    }
    Ok(build_patch(file_diff.path.as_str(), &file_diff.hunks[hunk_index], None))
}

/// The diff a hunk request works on: the working tree's changes to stage a
/// hunk, the index's changes to unstage one.
pub fn hunk_diff_side(unstage: bool) -> (side: DiffSide)
    ensures
        side == (if unstage {
            DiffSide::Index
        } else {
            DiffSide::Working
        }),
{
    if unstage {
        DiffSide::Index
    } else {
        DiffSide::Working
    }
}

/// Checks a request for single lines before anything is read: lines can
/// only be staged, not unstaged.
pub fn check_lines_request(unstage: bool) -> (r: Result<(), StageError>)
    ensures
        r is Ok <==> !unstage,
        r matches Err(e) ==> e == StageError::UnstageLinesUnsupported,
{
    if unstage {
        Err(StageError::UnstageLinesUnsupported)
    } else {
        Ok(())
    }
}

/// The patch for a request to stage (or unstage) the lines `line_indices`
/// of hunk `hunk_index` of the working-tree diff `file_diff`, or why the
/// request is refused.
pub open spec fn lines_request_patch(
    file_diff: FileDiff,
    hunk_index: usize,
    line_indices: Seq<usize>,
    unstage: bool,
) -> Result<Seq<char>, StageError> {
    if unstage {
        Err(StageError::UnstageLinesUnsupported)
    } else {
        match line_selection_verdict(file_diff, hunk_index, line_indices) {
            Err(e) => Err(e),
            Ok(_) => Ok(
                patch_text(
                    file_diff.path@,
                    file_diff.hunks@[hunk_index as int],
                    Some(line_indices),
                ),
            ),
        }
    }
}

/// The patch for a request to stage (`unstage == false`) the lines
/// `line_indices` of hunk `hunk_index`, given the working-tree diff.
pub fn lines_patch(file_diff: &FileDiff, hunk_index: usize, line_indices: &[usize], unstage: bool) -> (r:
    Result<String, StageError>)
    ensures
        match (r, lines_request_patch(*file_diff, hunk_index, line_indices@, unstage)) {
            (Ok(p), Ok(q)) => p@ == q,
            (Err(e), Err(f)) => e == f,
            _ => false,
        },
{
    if unstage {
        return Err(StageError::UnstageLinesUnsupported);
    }
    match validate_line_selection(file_diff, hunk_index, line_indices) {
        Err(e) => Err(e),
        Ok(()) => Ok(
            build_patch(file_diff.path.as_str(), &file_diff.hunks[hunk_index], Some(line_indices)),
        ),
    }
}

// ---------------------------------------------------------------------------
// Laws
// ---------------------------------------------------------------------------

/// A selection of lines may be staged exactly when every selected index is
/// a line of the hunk that is neither a context line nor a deleted line.
pub proof fn lemma_selection_accepted_iff(lines: Seq<DiffLine>, selection: Seq<usize>)
    ensures
        selection_verdict(lines, selection) is Ok <==> (forall|k: int|
            0 <= k < selection.len() ==> {
                let idx = #[trigger] selection[k];
                &&& idx < lines.len()
                &&& !is_context(lines[idx as int])
                &&& !is_deletion(lines[idx as int])
            }),
{
    lemma_scan_characterized(lines, selection, selection.len() as int);
}

/// What a scan of the first `n` indices has seen.
proof fn lemma_scan_characterized(lines: Seq<DiffLine>, selection: Seq<usize>, n: int)
    requires
        0 <= n <= selection.len(),
    ensures
        (scan_selection(lines, selection, n) is Accepted) <==> (forall|k: int|
            0 <= k < n ==> {
                let idx = #[trigger] selection[k];
                idx < lines.len() && !is_context(lines[idx as int])
            }),
        scan_selection(lines, selection, n) matches SelectionScan::Accepted { deletions, .. }
            ==> (deletions <==> exists|k: int|
            0 <= k < n && is_deletion(lines[#[trigger] selection[k] as int])),
    decreases n,
{
    if n > 0 {
        lemma_scan_characterized(lines, selection, n - 1);
        let idx = selection[n - 1];
        if idx < lines.len() {
            lemma_single_char_seq(lines[idx as int].origin@, '+');
            lemma_single_char_seq(lines[idx as int].origin@, '-');
            lemma_single_char_seq(lines[idx as int].origin@, ' ');
        }
        if scan_selection(lines, selection, n - 1) is Rejected {
            let k0 = choose|k: int|
                0 <= k < n - 1 && !({
                    let idx = #[trigger] selection[k];
                    idx < lines.len() && !is_context(lines[idx as int])
                });
            assert(0 <= k0 < n);
        }
    }
}

/// Selecting every added line of a hunk whose lines are all context, added
/// or deleted lines gives a patch body equal to that of the whole hunk, and
/// its header counts the context and deleted lines on the old side and the
/// context and added lines on the new side.
pub proof fn lemma_all_additions_selected(lines: Seq<DiffLine>, selection: Seq<usize>, n: int)
    requires
        0 <= n <= lines.len(),
        forall|i: int|
            0 <= i < lines.len() ==> is_context(#[trigger] lines[i]) || is_addition(lines[i])
                || is_deletion(lines[i]),
        forall|i: int|
            0 <= i < lines.len() && is_addition(#[trigger] lines[i]) ==> selection.contains(
                i as usize,
            ),
    ensures
        filtered_text(lines, selection, n) == lines_text(lines.take(n)),
        new_side_count(lines, selection, n) == old_side_count(lines, n) + additions_count(
            lines,
            n,
        ) - deletions_count(lines, n),
        new_side_count(lines, selection, n) == new_side_lines(lines, n),
    decreases n,
{
    if n > 0 {
        lemma_all_additions_selected(lines, selection, n - 1);
        assert(lines.take(n).drop_last() =~= lines.take(n - 1));
        lemma_single_char_seq(lines[n - 1].origin@, '+');
        lemma_single_char_seq(lines[n - 1].origin@, '-');
        lemma_single_char_seq(lines[n - 1].origin@, ' ');
    } else {
        assert(lines.take(0) =~= Seq::<DiffLine>::empty());
    }
}

/// How many of the first `n` lines exist on the new side of the whole hunk
/// (context and additions).
pub open spec fn new_side_lines(lines: Seq<DiffLine>, n: int) -> nat
    decreases n,
{
    if n <= 0 {
        0
    } else if is_context(lines[n - 1]) || is_addition(lines[n - 1]) {
        new_side_lines(lines, n - 1) + 1
    } else {
        new_side_lines(lines, n - 1)
    }
}

/// Staging every added line of a hunk one by one gives the same patch as
/// staging the whole hunk, where the hunk is well formed: its lines are
/// context, added or deleted lines, its counts are those of its lines, and
/// its header is the range line that those counts give.
pub proof fn lemma_full_selection_is_whole_hunk(path: Seq<char>, hunk: DiffHunk, selection: Seq<usize>)
    requires
        forall|i: int|
            0 <= i < hunk.lines@.len() ==> is_context(#[trigger] hunk.lines@[i]) || is_addition(
                hunk.lines@[i],
            ) || is_deletion(hunk.lines@[i]),
        forall|i: int|
            0 <= i < hunk.lines@.len() && is_addition(#[trigger] hunk.lines@[i])
                ==> selection.contains(i as usize),
        hunk.old_lines == old_side_count(hunk.lines@, hunk.lines@.len() as int),
        hunk.new_lines == new_side_lines(hunk.lines@, hunk.lines@.len() as int),
        hunk.header@ + "\n"@ == range_header(
            hunk.old_start as nat,
            hunk.old_lines as nat,
            hunk.new_start as nat,
            hunk.new_lines as nat,
        ),
    ensures
        patch_text(path, hunk, Some(selection)) == patch_text(path, hunk, None),
{
    let lines = hunk.lines@;
    lemma_all_additions_selected(lines, selection, lines.len() as int);
    assert(lines.take(lines.len() as int) =~= lines);
    assert(patch_text(path, hunk, Some(selection)) =~= patch_text(path, hunk, None));
}

/// How many of the first `n` lines are added lines.
pub open spec fn additions_count(lines: Seq<DiffLine>, n: int) -> nat
    decreases n,
{
    if n <= 0 {
        0
    } else if is_addition(lines[n - 1]) {
        additions_count(lines, n - 1) + 1
    } else {
        additions_count(lines, n - 1)
    }
}

/// How many of the first `n` lines are deleted lines.
pub open spec fn deletions_count(lines: Seq<DiffLine>, n: int) -> nat
    decreases n,
{
    if n <= 0 {
        0
    } else if is_deletion(lines[n - 1]) {
        deletions_count(lines, n - 1) + 1
    } else {
        deletions_count(lines, n - 1)
    }
}

// ---------------------------------------------------------------------------
// Reading patches
// ---------------------------------------------------------------------------

/// A diff of the `git2` crate, carried through opaquely.
#[verifier::external_type_specification]
#[verifier::external_body]
pub struct ExDiff<'a>(git2::Diff<'a>);

/// Whether libgit2 reads `patch` as a patch in unified-diff form.
pub uninterp spec fn patch_parses(patch: Seq<char>) -> bool;

/// `git2::Diff::from_buffer`: reads a patch in unified-diff form into a
/// diff that can be applied. Whether it succeeds depends on the patch text
/// alone, and is named `patch_parses`; the patch format takes pages and the
/// diff is opaque, so nothing more is stated of the result.
#[verifier::external_body]
fn diff_from_buffer(patch: &str) -> (r: Result<git2::Diff<'static>, git2::Error>)
    ensures
        r is Ok <==> patch_parses(patch@),
{
    git2::Diff::from_buffer(patch.as_bytes())
}

/// The diff that applies `patch` to the index: it is given exactly when
/// Git reads the patch, and otherwise the request fails with
/// `PatchUnreadable`.
pub fn patch_diff(patch: &str) -> (r: Result<git2::Diff<'static>, StageError>)
    ensures
        r is Ok <==> patch_parses(patch@),
        r matches Err(e) ==> e == StageError::PatchUnreadable,
{
    match diff_from_buffer(patch) {
        Ok(d) => Ok(d),
        Err(_) => Err(StageError::PatchUnreadable),
    }
}

} // verus!
