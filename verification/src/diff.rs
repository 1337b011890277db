//! The diff model: line origins, the diff of a file Git does not track yet,
//! and the binary-content heuristic.

use vstd::prelude::*;
use vstd::string::*;

use crate::history::DeltaStatus;
use crate::repo::str_eq;
use crate::text::{
    decimal, joined, lemma_raw_lines_join, lossy_text, push_decimal, raw_lines, raw_lines_of,
    string_texts, trim_end_of, trim_end_text, utf8_lossy,
};
use crate::types::{DiffHunk, DiffLine, FileDiff};
use vstd::utf8::{decode_utf8, decode_utf8_encode_utf8, encode_utf8, valid_utf8};

verus! {

/// The origin text of a diff line whose origin character is `c`: `+`, `-`
/// and a space stand for themselves, anything else has no origin.
pub open spec fn origin_text(c: char) -> Seq<char> {
    if c == '+' {
        seq!['+']
    } else if c == '-' {
        seq!['-']
    } else if c == ' ' {
        seq![' ']
    } else {
        Seq::empty()
    }
}

/// The origin text of a diff line whose origin character is `c`.
pub fn line_origin(c: char) -> (s: String)
    ensures
        s@ == origin_text(c),
{
    proof {
        reveal_strlit("+");
        reveal_strlit("-");
        reveal_strlit(" ");
        reveal_strlit("");
    }
    if c == '+' {
        "+".to_owned()
    } else if c == '-' {
        "-".to_owned()
    } else if c == ' ' {
        " ".to_owned()
    } else {
        "".to_owned()
    }
}

/// The texts of the lines of a hunk.
pub open spec fn line_contents(lines: Seq<DiffLine>) -> Seq<Seq<char>> {
    lines.map_values(|l: DiffLine| l.content@)
}

/// The hunk that shows a whole new text file: every line of `content`,
/// with its own line ending, is an added line, numbered from 1.
pub open spec fn new_file_hunk_matches(h: DiffHunk, content: Seq<char>) -> bool {
    let ls = raw_lines(content);
    &&& h.header@ == "@@ -0,0 +1,"@ + decimal(ls.len()) + " @@"@
    &&& h.old_start == 0
    &&& h.old_lines == 0
    &&& h.new_start == 1
    &&& h.new_lines == ls.len()
    &&& h.lines@.len() == ls.len()
    &&& forall|i: int|
        0 <= i < ls.len() ==> {
            let l = #[trigger] h.lines@[i];
            &&& l.origin@ == seq!['+']
            &&& l.content@ == ls[i]
            &&& l.old_lineno is None
            &&& l.new_lineno == Some((i + 1) as u32)
        }
}

/// The diff shown for a new, untracked text file at `path` with `content`:
/// one hunk that adds every line.
pub fn new_file_diff(path: &str, content: &str) -> (d: FileDiff)
    requires
        raw_lines(content@).len() <= u32::MAX,
    ensures
        d.path@ == path@,
        d.old_path is None,
        !d.is_binary,
        d.is_new,
        !d.is_deleted,
        d.hunks@.len() == 1,
        new_file_hunk_matches(d.hunks@[0], content@),
        joined(line_contents(d.hunks@[0].lines@)) == content@,
{
    let ls = raw_lines_of(content);
    let ghost texts = raw_lines(content@);
    let mut out: Vec<DiffLine> = Vec::new();
    let mut i: usize = 0;
    while i < ls.len()
        invariant
            string_texts(ls@) == texts,
            texts.len() <= u32::MAX,
            i <= ls@.len(),
            out@.len() == i,
            forall|j: int|
                0 <= j < i ==> {
                    let l = #[trigger] out@[j];
                    &&& l.origin@ == seq!['+']
                    &&& l.content@ == texts[j]
                    &&& l.old_lineno is None
                    &&& l.new_lineno == Some((j + 1) as u32)
                },
        decreases ls@.len() - i,
    {
        let text = ls[i].clone();
        proof {
            reveal_strlit("+");
            assert(text@ == texts[i as int]);
        }
        out.push(
            DiffLine {
                origin: "+".to_owned(),
                content: text,
                old_lineno: None,
                new_lineno: Some(i as u32 + 1),
            },
        );
        i = i + 1;
    }
    proof {
        assert(line_contents(out@) =~= texts);
        lemma_raw_lines_join(content@);
    }
    let n = out.len();
    let mut header = String::new();
    header.append("@@ -0,0 +1,");
    push_decimal(&mut header, n as u64);
    header.append(" @@");
    assert(header@ =~= "@@ -0,0 +1,"@ + decimal(texts.len()) + " @@"@);
    let hunk = DiffHunk {
        header,
        old_start: 0,
        old_lines: 0,
        new_start: 1,
        new_lines: n as u32,
        lines: out,
    };
    let mut hunks: Vec<DiffHunk> = Vec::new();
    hunks.push(hunk);
    FileDiff {
        path: path.to_owned(),
        old_path: None,
        is_binary: false,
        is_new: true,
        is_deleted: false,
        hunks,
    }
}

/// The diff shown for a new, untracked binary file at `path`: flagged
/// binary, with no hunks.
pub fn new_binary_file_diff(path: &str) -> (d: FileDiff)
    ensures
        d.path@ == path@,
        d.old_path is None,
        d.is_binary,
        d.is_new,
        !d.is_deleted,
        d.hunks@.len() == 0,
{
    FileDiff {
        path: path.to_owned(),
        old_path: None,
        is_binary: true,
        is_new: true,
        is_deleted: false,
        hunks: Vec::new(),
    }
}

// ---------------------------------------------------------------------------
// Binary content
// ---------------------------------------------------------------------------

/// The number of bytes read to decide whether a file is binary.
pub const BINARY_SAMPLE_LEN: usize = 8192;

/// A control byte other than newline, carriage return and tab.
pub open spec fn non_printable(b: u8) -> bool {
    b < 32 && b != 10 && b != 13 && b != 9
}

/// How many of the first `n` bytes of `s` are non-printable.
pub open spec fn non_printable_count(s: Seq<u8>, n: int) -> nat
    decreases n,
{
    if n <= 0 {
        0
    } else if non_printable(s[n - 1]) {
        non_printable_count(s, n - 1) + 1
    } else {
        non_printable_count(s, n - 1)
    }
}

/// A sample looks binary when it holds a zero byte or when more than 30%
/// of its bytes are non-printable; an empty sample is text.
pub open spec fn looks_binary(sample: Seq<u8>) -> bool {
    sample.contains(0u8) || 10 * non_printable_count(sample, sample.len() as int) > 3
        * sample.len()
}

/// Only control bytes count against a sample: where every byte is at
/// least 32 (every byte of a multi-byte UTF-8 sequence among them) or is
/// a newline, carriage return or tab, none is counted.
proof fn lemma_printable_bytes_uncounted(s: Seq<u8>, n: int)
    requires
        0 <= n <= s.len(),
        forall|i: int| 0 <= i < s.len() ==> #[trigger] s[i] >= 32 || s[i] == 9 || s[i] == 10 || s[i] == 13,
    ensures
        non_printable_count(s, n) == 0,
    decreases n,
{
    if n > 0 {
        lemma_printable_bytes_uncounted(s, n - 1);
    }
}

/// What makes a sample binary: a zero byte always does; text, in which
/// every byte is at least 32 or is a newline, carriage return or tab
/// (UTF-8 text in any script included), never does; and a sample made of
/// control bytes alone (other than newline, carriage return and tab) does.
pub proof fn lemma_binary_sample(sample: Seq<u8>)
    ensures
        sample.contains(0u8) ==> looks_binary(sample),
        (forall|i: int|
            0 <= i < sample.len() ==> #[trigger] sample[i] >= 32 || sample[i] == 9 || sample[i] == 10
                || sample[i] == 13) ==> !looks_binary(sample),
        (sample.len() > 0 && forall|i: int|
            0 <= i < sample.len() ==> #[trigger] sample[i] < 32 && sample[i] != 9 && sample[i] != 10
                && sample[i] != 13) ==> looks_binary(sample),
{
    if forall|i: int|
        0 <= i < sample.len() ==> #[trigger] sample[i] >= 32 || sample[i] == 9 || sample[i] == 10
            || sample[i] == 13 {
        lemma_printable_bytes_uncounted(sample, sample.len() as int);
        if sample.contains(0u8) {
            let j = choose|j: int| 0 <= j < sample.len() && sample[j] == 0u8;
            assert(sample[j] >= 32 || sample[j] == 9 || sample[j] == 10 || sample[j] == 13);
        }
    }
    if sample.len() > 0 && forall|i: int|
        0 <= i < sample.len() ==> #[trigger] sample[i] < 32 && sample[i] != 9 && sample[i] != 10
            && sample[i] != 13 {
        lemma_all_control_counted(sample, sample.len() as int);
    }
}

/// Where every byte is a control byte other than newline, carriage return
/// and tab, every byte is counted.
proof fn lemma_all_control_counted(s: Seq<u8>, n: int)
    requires
        0 <= n <= s.len(),
        forall|i: int| 0 <= i < s.len() ==> #[trigger] s[i] < 32 && s[i] != 9 && s[i] != 10 && s[i] != 13,
    ensures
        non_printable_count(s, n) == n,
    decreases n,
{
    if n > 0 {
        lemma_all_control_counted(s, n - 1);
    }
}

/// Whether the first bytes of a file (at most `BINARY_SAMPLE_LEN` of them)
/// look binary.
pub fn is_binary_content(sample: &[u8]) -> (b: bool)
    requires
        sample@.len() <= BINARY_SAMPLE_LEN,
    ensures
        b == looks_binary(sample@),
{
    let mut has_null = false;
    let mut count: usize = 0;
    let mut i: usize = 0;
    while i < sample.len()
        invariant
            i <= sample@.len() <= BINARY_SAMPLE_LEN,
            count == non_printable_count(sample@, i as int),
            count <= i,
            has_null <==> exists|j: int| 0 <= j < i && #[trigger] sample@[j] == 0u8,
        decreases sample@.len() - i,
    {
        let b = sample[i];
        if b == 0 {
            has_null = true;
        }
        if b < 32 && b != 10 && b != 13 && b != 9 {
            count = count + 1;
        }
        i = i + 1;
    }
    proof {
        if has_null {
            let j = choose|j: int| 0 <= j < sample@.len() && #[trigger] sample@[j] == 0u8;
            assert(sample@.contains(0u8));
        }
        if sample@.contains(0u8) {
            let j = choose|j: int| 0 <= j < sample@.len() && sample@[j] == 0u8;
            assert(sample@[j] == 0u8);
        }
    }
    has_null || count * 10 > sample.len() * 3
}

// ---------------------------------------------------------------------------
// Assembling the diff of one file from a diff walk
// ---------------------------------------------------------------------------

/// What a diff walk reports of one changed file.
#[derive(Debug, Clone)]
pub struct DeltaFacts {
    /// the path on the new side, when it has one that is valid UTF-8
    pub new_path: Option<String>,
    /// the path on the old side, when it has one that is valid UTF-8
    pub old_path: Option<String>,
    /// whether Git takes the new side for binary
    pub new_binary: bool,
    /// whether Git takes the old side for binary
    pub old_binary: bool,
    /// how the file changed
    pub status: DeltaStatus,
}

/// Why no diff can be shown.
#[derive(Debug, Clone)]
pub enum DiffError {
    /// Nothing changed at this path, and no file is there.
    NoDiff { path: String },
}

impl DiffError {
    /// The message shown for this failure.
    pub fn message(&self) -> (m: String)
        ensures
            m@ == (match *self {
                DiffError::NoDiff { path } => "No diff found for path: "@ + path@,
            }),
    {
        let mut m = String::new();
        match self {
            DiffError::NoDiff { path } => {
                m.append("No diff found for path: ");
                m.append(path.as_str());
            },
        }
        m
    }
}

/// The diff a walk starts for a changed file when it reaches it: the
/// file's paths and kind of change, no hunks yet.
pub open spec fn started_diff(d: FileDiff, target: Seq<char>, delta: DeltaFacts) -> bool {
    &&& d.path@ == target
    &&& d.old_path == delta.old_path
    &&& d.is_binary == (delta.new_binary || delta.old_binary)
    &&& d.is_new == (delta.status == DeltaStatus::Added)
    &&& d.is_deleted == (delta.status == DeltaStatus::Deleted)
    &&& d.hunks@.len() == 0
}

/// The hunk a walk starts when it reaches a hunk header: the header text
/// without trailing white space, the ranges, no lines yet.
pub open spec fn started_hunk(
    h: DiffHunk,
    header: Seq<u8>,
    old_start: u32,
    old_lines: u32,
    new_start: u32,
    new_lines: u32,
) -> bool {
    &&& h.header@ == trim_end_text(utf8_lossy(header))
    &&& h.old_start == old_start
    &&& h.old_lines == old_lines
    &&& h.new_start == new_start
    &&& h.new_lines == new_lines
    &&& h.lines@.len() == 0
}

/// A line of a hunk as a walk reports it: its origin and its text, byte for
/// byte, line ending included.
pub open spec fn walked_line(
    l: DiffLine,
    origin: char,
    content: Seq<u8>,
    old_lineno: Option<u32>,
    new_lineno: Option<u32>,
) -> bool {
    &&& l.origin@ == origin_text(origin)
    &&& l.content@ == utf8_lossy(content)
    &&& valid_utf8(content) ==> l.content@ == decode_utf8(content)
    &&& l.old_lineno == old_lineno
    &&& l.new_lineno == new_lineno
}

/// Line endings are kept byte for byte: the text of a reported line
/// encodes back to exactly the bytes the walk reported, `\r\n` included,
/// whenever those bytes are valid UTF-8.
pub proof fn lemma_line_bytes_kept(
    l: DiffLine,
    origin: char,
    content: Seq<u8>,
    old_lineno: Option<u32>,
    new_lineno: Option<u32>,
)
    requires
        walked_line(l, origin, content, old_lineno, new_lineno),
        valid_utf8(content),
    ensures
        encode_utf8(l.content@) == content,
{
    decode_utf8_encode_utf8(content);
}

/// The same file, hunks aside.
pub open spec fn same_file_header(a: FileDiff, b: FileDiff) -> bool {
    &&& a.path == b.path
    &&& a.old_path == b.old_path
    &&& a.is_binary == b.is_binary
    &&& a.is_new == b.is_new
    &&& a.is_deleted == b.is_deleted
}

/// The same hunk, lines aside.
pub open spec fn same_hunk_header(a: DiffHunk, b: DiffHunk) -> bool {
    &&& a.header == b.header
    &&& a.old_start == b.old_start
    &&& a.old_lines == b.old_lines
    &&& a.new_start == b.new_start
    &&& a.new_lines == b.new_lines
}

/// Builds the diff of the file at one path from the events of a walk over
/// a diff: each file, each hunk header and each line, in order. The diff
/// starts at the file with that path (again at each such file) and takes
/// every hunk and line reported after it.
pub struct FileDiffBuilder {
    target: String,
    found: Option<FileDiff>,
}

impl FileDiffBuilder {
    /// The path whose diff is built.
    pub closed spec fn target(&self) -> Seq<char> {
        self.target@
    }

    /// The diff built so far, none before the file is reached.
    pub closed spec fn result(&self) -> Option<FileDiff> {
        self.found
    }

    /// A builder for the diff of `path`, before the walk.
    pub fn new(path: &str) -> (b: Self)
        ensures
            b.target() == path@,
            b.result() is None,
    {
        FileDiffBuilder { target: path.to_owned(), found: None }
    }

    /// The walk reached a file: the diff starts over when it is the file
    /// at the path.
    pub fn on_file(&mut self, delta: &DeltaFacts)
        ensures
            final(self).target() == old(self).target(),
            match delta.new_path {
                Some(p) if p@ == old(self).target() => final(self).result() matches Some(d)
                    && started_diff(d, old(self).target(), *delta),
                _ => final(self).result() == old(self).result(),
            },
    {
        match &delta.new_path {
            Some(p) => {
                if str_eq(p.as_str(), self.target.as_str()) {
                    self.found = Some(
                        FileDiff {
                            path: self.target.clone(),
                            old_path: delta.old_path.clone(),
                            is_binary: delta.new_binary || delta.old_binary,
                            is_new: delta.status == DeltaStatus::Added,
                            is_deleted: delta.status == DeltaStatus::Deleted,
                            hunks: Vec::new(),
                        },
                    );
                }
            },
            None => {},
        }
    }

    /// The walk reached a hunk header: once the file is reached, a new hunk
    /// starts.
    pub fn on_hunk(
        &mut self,
        header: &[u8],
        old_start: u32,
        old_lines: u32,
        new_start: u32,
        new_lines: u32,
    )
        ensures
            final(self).target() == old(self).target(),
            match old(self).result() {
                None => final(self).result() is None,
                Some(d) => final(self).result() matches Some(e) && same_file_header(e, d)
                    && e.hunks@.len() == d.hunks@.len() + 1 && e.hunks@.drop_last() == d.hunks@
                    && started_hunk(
                    e.hunks@.last(),
                    header@,
                    old_start,
                    old_lines,
                    new_start,
                    new_lines,
                ),
            },
    {
        let mut found: Option<FileDiff> = None;
        std::mem::swap(&mut found, &mut self.found);
        match found {
            Some(mut d) => {
                let text = lossy_text(header);
                let hunk = DiffHunk {
                    header: trim_end_of(text.as_str()),
                    old_start,
                    old_lines,
                    new_start,
                    new_lines,
                    lines: Vec::new(),
                };
                let ghost before = d.hunks@;
                d.hunks.push(hunk);
                assert(d.hunks@.drop_last() =~= before);
                self.found = Some(d);
            },
            None => {},
        }
    }

    /// The walk reached a line: once a hunk has started, the line joins the
    /// latest hunk.
    pub fn on_line(
        &mut self,
        origin: char,
        content: &[u8],
        old_lineno: Option<u32>,
        new_lineno: Option<u32>,
    )
        ensures
            final(self).target() == old(self).target(),
            match old(self).result() {
                Some(d) if d.hunks@.len() > 0 => final(self).result() matches Some(e)
                    && same_file_header(e, d) && e.hunks@.len() == d.hunks@.len()
                    && e.hunks@.drop_last() == d.hunks@.drop_last()
                    && same_hunk_header(e.hunks@.last(), d.hunks@.last())
                    && e.hunks@.last().lines@.len() == d.hunks@.last().lines@.len() + 1
                    && e.hunks@.last().lines@.drop_last() == d.hunks@.last().lines@
                    && walked_line(
                    e.hunks@.last().lines@.last(),
                    origin,
                    content@,
                    old_lineno,
                    new_lineno,
                ),
                _ => final(self).result() == old(self).result(),
            },
    {
        let mut found: Option<FileDiff> = None;
        std::mem::swap(&mut found, &mut self.found);
        match found {
            Some(mut d) => {
                if d.hunks.len() > 0 {
                    let ghost before = d.hunks@;
                    let mut h = d.hunks.pop().unwrap();
                    let ghost h0 = h;
                    let line = DiffLine {
                        origin: line_origin(origin),
                        content: lossy_text(content),
                        old_lineno,
                        new_lineno,
                    };
                    h.lines.push(line);
                    assert(h.lines@.drop_last() =~= h0.lines@);
                    d.hunks.push(h);
                    assert(d.hunks@.drop_last() =~= before.drop_last());
                }
                self.found = Some(d);
            },
            None => {},
        }
    }

    /// The diff built, none when the walk never reached the file.
    pub fn finish(self) -> (r: Option<FileDiff>)
        ensures
            r == self.result(),
    {
        self.found
    }
}

// ---------------------------------------------------------------------------
// Choosing the diff to show
// ---------------------------------------------------------------------------

/// What the working tree holds at a path, as read from disk.
#[derive(Debug, Clone)]
pub enum WorkingFile {
    /// Nothing is there.
    Missing,
    /// A file whose first bytes look binary.
    Binary,
    /// A text file with this content.
    Text(String),
}

/// The diff shown for `path`: the one the diff walk built when it reached
/// the path; otherwise a file Git does not track yet, shown whole as a new
/// file (flagged binary when it looks binary); otherwise no diff at all.
/// The working file is looked at only when the walk built nothing.
pub fn resolve_diff(path: &str, walked: Option<FileDiff>, file: WorkingFile) -> (r: Result<
    FileDiff,
    DiffError,
>)
    requires
        walked is None ==> (file matches WorkingFile::Text(c) ==> raw_lines(c@).len() <= u32::MAX),
    ensures
        walked matches Some(d) ==> r == Ok::<FileDiff, DiffError>(d),
        walked is None ==> match file {
            WorkingFile::Missing => r matches Err(DiffError::NoDiff { path: p }) && p@ == path@,
            WorkingFile::Binary => r matches Ok(d) && d.path@ == path@ && d.old_path is None
                && d.is_binary && d.is_new && !d.is_deleted && d.hunks@.len() == 0,
            WorkingFile::Text(c) => r matches Ok(d) && d.path@ == path@ && d.old_path is None
                && !d.is_binary && d.is_new && !d.is_deleted && d.hunks@.len() == 1
                && new_file_hunk_matches(d.hunks@[0], c@) && joined(line_contents(d.hunks@[0].lines@))
                == c@,
        },
{
    match walked {
        Some(d) => Ok(d),
        None => match file {
            WorkingFile::Missing => Err(DiffError::NoDiff { path: path.to_owned() }),
            WorkingFile::Binary => Ok(new_binary_file_diff(path)),
            WorkingFile::Text(c) => Ok(new_file_diff(path, c.as_str())),
        },
    }
}

} // verus!
