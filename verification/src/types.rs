//! The data that crosses the boundary between the Git engine and its user
//! interface: requests, responses and the diff and status model.

use vstd::prelude::*;

verus! {

// ---------------------------------------------------------------------------
// Repository operations
// ---------------------------------------------------------------------------

/// A request to open the repository at `path`.
#[derive(Debug, Clone)]
pub struct RepoOpenRequest {
    pub path: String,
}

/// An open repository: its registry identifier, its path and its HEAD.
#[derive(Debug, Clone)]
pub struct RepoOpenResponse {
    pub repo_id: String,
    pub path: String,
    pub head: Option<HeadInfo>,
}

/// What HEAD points at.
#[derive(Debug, Clone)]
pub struct HeadInfo {
    pub branch: Option<String>,
    pub commit: String,
    pub message: Option<String>,
}

// ---------------------------------------------------------------------------
// Status operations
// ---------------------------------------------------------------------------

/// The status of every changed path of a working tree, ordered by path.
#[derive(Debug, Clone)]
pub struct StatusMatrix {
    pub entries: Vec<StatusEntry>,
}

/// The status of one path.
#[derive(Debug, Clone)]
pub struct StatusEntry {
    pub path: String,
    pub status: FileStatus,
    /// `"added"`, `"modified"` or `"deleted"`
    pub staged_status: Option<String>,
    /// `"modified"` or `"deleted"`
    pub unstaged_status: Option<String>,
    pub untracked: bool,
}

/// The summary status shown for a path.
#[derive(Debug, Clone, Copy, PartialEq, Eq, Structural)]
pub enum FileStatus {
    Untracked,
    Modified,
    Added,
    Deleted,
    Renamed,
    Conflicted,
}

// ---------------------------------------------------------------------------
// Diff operations
// ---------------------------------------------------------------------------

/// A request for the diff of one path.
#[derive(Debug, Clone)]
pub struct DiffRequest {
    pub repo_id: String,
    pub path: String,
    pub side: DiffSide,
    /// `None` asks for the whole file.
    pub context_lines: Option<u32>,
}

/// The number of context lines asked for when a request names none.
pub fn default_context_lines() -> (r: Option<u32>)
    ensures
        r == Some(3u32),
{
    Some(3)
}

/// Which two trees a diff compares.
#[derive(Debug, Clone, Copy, PartialEq, Eq, Structural)]
pub enum DiffSide {
    /// index against working tree (unstaged changes)
    Working,
    /// HEAD against index (staged changes)
    Index,
    /// HEAD against working tree (all changes)
    Head,
}

/// The diff of one file.
#[derive(Debug, Clone)]
pub struct FileDiff {
    pub path: String,
    pub old_path: Option<String>,
    pub is_binary: bool,
    pub is_new: bool,
    pub is_deleted: bool,
    pub hunks: Vec<DiffHunk>,
}

/// One hunk of a diff.
#[derive(Debug, Clone)]
pub struct DiffHunk {
    pub header: String,
    pub old_start: u32,
    pub old_lines: u32,
    pub new_start: u32,
    pub new_lines: u32,
    pub lines: Vec<DiffLine>,
}

/// One line of a hunk.
#[derive(Debug, Clone)]
pub struct DiffLine {
    /// `"+"`, `"-"` or `" "`
    pub origin: String,
    /// the line's text with its line ending, byte for byte
    pub content: String,
    pub old_lineno: Option<u32>,
    pub new_lineno: Option<u32>,
}

// ---------------------------------------------------------------------------
// Stage operations
// ---------------------------------------------------------------------------

/// A request to stage (or unstage) one hunk of a file.
#[derive(Debug, Clone)]
pub struct StageHunkRequest {
    pub repo_id: String,
    pub path: String,
    pub hunk_index: usize,
    pub unstage: bool,
}

/// A request to stage (or unstage) some lines of one hunk.
#[derive(Debug, Clone)]
pub struct StageLinesRequest {
    pub repo_id: String,
    pub path: String,
    pub hunk_index: usize,
    /// indices into the hunk's lines
    pub line_indices: Vec<usize>,
    pub unstage: bool,
}

// ---------------------------------------------------------------------------
// Discard operations
// ---------------------------------------------------------------------------

/// A request to discard the changes of a file.
#[derive(Debug, Clone)]
pub struct DiscardRequest {
    pub repo_id: String,
    pub path: String,
    /// `None` discards the whole file.
    pub hunks: Option<Vec<usize>>,
}

// ---------------------------------------------------------------------------
// Commit operations
// ---------------------------------------------------------------------------

/// A request to commit the index.
#[derive(Debug, Clone)]
pub struct CommitRequest {
    pub repo_id: String,
    pub message: String,
    pub author_name: Option<String>,
    pub author_email: Option<String>,
}

/// The commit that was made.
#[derive(Debug, Clone)]
pub struct CommitResponse {
    pub oid: String,
}

// ---------------------------------------------------------------------------
// Watch operations
// ---------------------------------------------------------------------------

/// Paths of a repository that changed on disk.
#[derive(Debug, Clone)]
pub struct WatchEvent {
    pub repo_id: String,
    pub paths: Vec<String>,
    /// `"modified"`, `"created"` or `"deleted"`
    pub event_type: String,
}

// ---------------------------------------------------------------------------
// Response envelope
// ---------------------------------------------------------------------------

/// The envelope of every answer: either data, or an error code and message.
#[derive(Debug, Clone)]
pub struct ApiResponse<T> {
    pub ok: bool,
    pub data: Option<T>,
    pub code: Option<String>,
    pub message: Option<String>,
}

impl<T> ApiResponse<T> {
    /// A successful answer carrying `data`.
    pub fn success(data: T) -> (r: Self)
        ensures
            r.ok,
            r.data == Some(data),
            r.code is None,
            r.message is None,
    {
        ApiResponse { ok: true, data: Some(data), code: None, message: None }
    }

    /// A failed answer with an error code and a message.
    pub fn error(code: String, message: String) -> (r: Self)
        ensures
            !r.ok,
            r.data is None,
            r.code == Some(code),
            r.message == Some(message),
    {
        ApiResponse { ok: false, data: None, code: Some(code), message: Some(message) }
    }
}

// ---------------------------------------------------------------------------
// History operations
// ---------------------------------------------------------------------------

/// A request for a page of the commit log.
#[derive(Debug, Clone)]
pub struct GetLogRequest {
    pub repo_id: String,
    pub limit: usize,
    pub skip: Option<usize>,
}

/// A page of the commit log.
#[derive(Debug, Clone)]
pub struct GetLogResponse {
    pub commits: Vec<CommitSummary>,
    pub has_more: bool,
}

/// One commit as the log shows it.
#[derive(Debug, Clone)]
pub struct CommitSummary {
    pub oid: String,
    pub short_oid: String,
    pub author: CommitAuthor,
    /// seconds since the epoch
    pub time: i64,
    pub message: String,
    pub subject: String,
    pub refs: Option<Vec<String>>,
}

/// The author of a commit.
#[derive(Debug, Clone)]
pub struct CommitAuthor {
    pub name: String,
    pub email: String,
}

/// A request for the diff that a commit introduced.
#[derive(Debug, Clone)]
pub struct GetCommitDiffRequest {
    pub repo_id: String,
    pub oid: String,
    pub parent: Option<usize>,
}

/// The files that a commit changed.
#[derive(Debug, Clone)]
pub struct GetCommitDiffResponse {
    pub files: Vec<CommitFileDiff>,
}

/// How a commit changed a file.
#[derive(Debug, Clone, Copy, PartialEq, Eq, Structural)]
pub enum CommitFileChangeType {
    Added,
    Modified,
    Deleted,
    Renamed,
    Copied,
}

/// One file changed by a commit.
#[derive(Debug, Clone)]
pub struct CommitFileDiff {
    pub path: String,
    pub old_path: Option<String>,
    pub change: CommitFileChangeType,
    pub is_binary: bool,
    pub hunks: Option<Vec<CommitDiffHunk>>,
}

/// One hunk of a commit's diff.
#[derive(Debug, Clone)]
pub struct CommitDiffHunk {
    pub header: String,
    pub old_start: u32,
    pub old_lines: u32,
    pub new_start: u32,
    pub new_lines: u32,
    pub lines: Vec<CommitDiffLine>,
}

/// One line of a commit's diff.
#[derive(Debug, Clone)]
pub struct CommitDiffLine {
    pub ln_old: Option<u32>,
    pub ln_new: Option<u32>,
    /// `"add"`, `"del"` or `"ctx"`
    pub line_type: String,
    pub text: String,
}

// ---------------------------------------------------------------------------
// Branch operations
// ---------------------------------------------------------------------------

/// A local branch.
#[derive(Debug, Clone)]
pub struct BranchInfo {
    pub name: String,
    pub is_head: bool,
}

/// The local branches and the one HEAD is on.
#[derive(Debug, Clone)]
pub struct ListBranchesResponse {
    pub current: Option<String>,
    pub locals: Vec<BranchInfo>,
}

/// A request to check out a local branch.
#[derive(Debug, Clone)]
pub struct SwitchBranchRequest {
    pub repo_id: String,
    pub name: String,
}

/// The branch that was checked out.
#[derive(Debug, Clone)]
pub struct SwitchBranchResponse {
    pub name: String,
}

// ---------------------------------------------------------------------------
// Search operations
// ---------------------------------------------------------------------------

/// A request to search the history for files by name.
#[derive(Debug, Clone)]
pub struct SearchFilesRequest {
    pub repo_id: String,
    pub query: String,
    pub limit: usize,
}

/// The number of results a search request asks for when it names none.
pub fn default_search_limit() -> (r: usize)
    ensures
        r == 100,
{
    100
}

/// The files found by a search, best first.
#[derive(Debug, Clone)]
pub struct SearchFilesResponse {
    pub results: Vec<FileSearchResult>,
}

/// A file found by a search, with the commits that touched it.
#[derive(Debug, Clone)]
pub struct FileSearchResult {
    pub path: String,
    pub commits: Vec<CommitFileMatch>,
}

/// A commit that touched a file found by a search.
#[derive(Debug, Clone)]
pub struct CommitFileMatch {
    pub commit: CommitSummary,
    pub change: CommitFileChangeType,
}

// ---------------------------------------------------------------------------
// Cache keys
// ---------------------------------------------------------------------------

/// What identifies a computed working-tree diff.
#[derive(Debug, Clone)]
pub struct DiffCacheKey {
    pub path: String,
    pub index_oid: Option<String>,
    pub worktree_mtime: Option<i64>,
}

} // verus!
