//! Unified-diff patches built from the hunks of a diff: whole hunks, hunks
//! restricted to a selection of added lines, and reversed hunks.

use vstd::prelude::*;
use vstd::string::*;

use crate::text::{decimal, push_decimal};
use crate::types::{DiffHunk, DiffLine};

verus! {

// ---------------------------------------------------------------------------
// The model
// ---------------------------------------------------------------------------

/// A line that is the same on both sides.
pub open spec fn is_context(l: DiffLine) -> bool {
    l.origin@ == seq![' ']
}

/// A line that the change adds.
pub open spec fn is_addition(l: DiffLine) -> bool {
    l.origin@ == seq!['+']
}

/// A line that the change removes.
pub open spec fn is_deletion(l: DiffLine) -> bool {
    l.origin@ == seq!['-']
}

/// A line as a patch writes it: its origin, then its content.
pub open spec fn line_text(l: DiffLine) -> Seq<char> {
    l.origin@ + l.content@
}

/// The lines as a patch writes them, one after the other.
pub open spec fn lines_text(lines: Seq<DiffLine>) -> Seq<char>
    decreases lines.len(),
{
    if lines.len() == 0 {
        Seq::empty()
    } else {
        lines_text(lines.drop_last()) + line_text(lines.last())
    }
}

/// The three header lines of a patch for `path`.
pub open spec fn patch_preamble(path: Seq<char>) -> Seq<char> {
    "diff --git a/"@ + path + " b/"@ + path + "\n"@ + "--- a/"@ + path + "\n"@ + "+++ b/"@ + path
        + "\n"@
}

/// A hunk header line `@@ -a,b +c,d @@`.
pub open spec fn range_header(a: nat, b: nat, c: nat, d: nat) -> Seq<char> {
    "@@ -"@ + decimal(a) + ","@ + decimal(b) + " +"@ + decimal(c) + ","@ + decimal(d) + " @@\n"@
}

/// Whether a filtered patch keeps line `i`: context and deleted lines always,
/// added lines only when selected, lines of any other origin never.
pub open spec fn kept(lines: Seq<DiffLine>, selection: Seq<usize>, i: int) -> bool {
    is_context(lines[i]) || is_deletion(lines[i]) || (is_addition(lines[i]) && selection.contains(
        i as usize,
    ))
}

/// The text of the kept lines among the first `n`.
pub open spec fn filtered_text(lines: Seq<DiffLine>, selection: Seq<usize>, n: int) -> Seq<char>
    decreases n,
{
    if n <= 0 {
        Seq::empty()
    } else if kept(lines, selection, n - 1) {
        filtered_text(lines, selection, n - 1) + line_text(lines[n - 1])
    } else {
        filtered_text(lines, selection, n - 1)
    }
}

/// How many of the first `n` lines exist on the old side (context and deletions).
pub open spec fn old_side_count(lines: Seq<DiffLine>, n: int) -> nat
    decreases n,
{
    if n <= 0 {
        0
    } else if is_context(lines[n - 1]) || is_deletion(lines[n - 1]) {
        old_side_count(lines, n - 1) + 1
    } else {
        old_side_count(lines, n - 1)
    }
}

/// How many of the first `n` lines exist on the new side of a filtered
/// patch (context and selected additions).
pub open spec fn new_side_count(lines: Seq<DiffLine>, selection: Seq<usize>, n: int) -> nat
    decreases n,
{
    if n <= 0 {
        0
    } else if is_context(lines[n - 1]) || (is_addition(lines[n - 1]) && selection.contains(
        (n - 1) as usize,
    )) {
        new_side_count(lines, selection, n - 1) + 1
    } else {
        new_side_count(lines, selection, n - 1)
    }
}

/// The patch that applies `hunk` to `path`; with a selection, only the
/// selected added lines are applied.
pub open spec fn patch_text(path: Seq<char>, hunk: DiffHunk, selection: Option<Seq<usize>>) -> Seq<
    char,
> {
    let lines = hunk.lines@;
    patch_preamble(path) + match selection {
        Some(sel) => range_header(
            hunk.old_start as nat,
            old_side_count(lines, lines.len() as int),
            hunk.new_start as nat,
            new_side_count(lines, sel, lines.len() as int),
        ) + filtered_text(lines, sel, lines.len() as int),
        None => hunk.header@ + "\n"@ + lines_text(lines),
    }
}

/// The origin with additions and deletions swapped.
pub open spec fn reversed_origin(origin: Seq<char>) -> Seq<char> {
    if origin == seq!['+'] {
        seq!['-']
    } else if origin == seq!['-'] {
        seq!['+']
    } else {
        origin
    }
}

/// The lines with additions and deletions swapped, as a patch writes them.
pub open spec fn reversed_text(lines: Seq<DiffLine>) -> Seq<char>
    decreases lines.len(),
{
    if lines.len() == 0 {
        Seq::empty()
    } else {
        reversed_text(lines.drop_last()) + reversed_origin(lines.last().origin@)
            + lines.last().content@
    }
}

/// The patch that undoes `hunk` on `path`.
pub open spec fn reverse_patch_text(path: Seq<char>, hunk: DiffHunk) -> Seq<char> {
    patch_preamble(path) + range_header(
        hunk.new_start as nat,
        hunk.new_lines as nat,
        hunk.old_start as nat,
        hunk.old_lines as nat,
    ) + reversed_text(hunk.lines@)
}

// ---------------------------------------------------------------------------
// Line origins
// ---------------------------------------------------------------------------

/// A one-character sequence is equal to `seq![c]` exactly when its only
/// character is `c`.
pub proof fn lemma_single_char_seq(s: Seq<char>, c: char)
    ensures
        (s == seq![c]) <==> (s.len() == 1 && s[0] == c),
{
    if s.len() == 1 && s[0] == c {
        assert(s =~= seq![c]);
    }
}

/// The single character of `s`, if it has exactly one.
pub fn single_char(s: &String) -> (r: Option<char>)
    ensures
        r == (if s@.len() == 1 {
            Some(s@[0])
        } else {
            None::<char>
        }),
{
    let st = s.as_str();
    if st.unicode_len() == 1 {
        Some(st.get_char(0))
    } else {
        None
    }
}

/// Whether `idx` occurs in `selection`.
pub fn contains_index(selection: &[usize], idx: usize) -> (b: bool)
    ensures
        b == selection@.contains(idx),
{
    let mut i: usize = 0;
    while i < selection.len()
        invariant
            i <= selection@.len(),
            forall|j: int| 0 <= j < i ==> selection@[j] != idx,
        decreases selection@.len() - i,
    {
        if selection[i] == idx {
            return true;
        }
        i = i + 1;
    }
    false
}

// ---------------------------------------------------------------------------
// Building patches
// ---------------------------------------------------------------------------

fn push_preamble(patch: &mut String, path: &str)
    ensures
        final(patch)@ == old(patch)@ + patch_preamble(path@),
{
    patch.append("diff --git a/");
    patch.append(path);
    patch.append(" b/");
    patch.append(path);
    patch.append("\n");
    patch.append("--- a/");
    patch.append(path);
    patch.append("\n");
    patch.append("+++ b/");
    patch.append(path);
    patch.append("\n");
    assert(patch@ =~= old(patch)@ + patch_preamble(path@));
}

fn push_range_header(patch: &mut String, a: u64, b: u64, c: u64, d: u64)
    ensures
        final(patch)@ == old(patch)@ + range_header(a as nat, b as nat, c as nat, d as nat),
{
    patch.append("@@ -");
    push_decimal(patch, a);
    patch.append(",");
    push_decimal(patch, b);
    patch.append(" +");
    push_decimal(patch, c);
    patch.append(",");
    push_decimal(patch, d);
    patch.append(" @@\n");
    assert(patch@ =~= old(patch)@ + range_header(a as nat, b as nat, c as nat, d as nat));
}

/// Builds the unified-diff patch that applies `hunk` to the file at `path`.
///
/// Without a filter the hunk is written as it stands, under its own header.
/// With a filter the patch keeps every context and deleted line but only the
/// added lines whose index is in the filter, and its header counts the lines
/// that remain on each side.
pub fn build_patch(path: &str, hunk: &DiffHunk, line_filter: Option<&[usize]>) -> (patch: String)
    ensures
        patch@ == patch_text(
            path@,
            *hunk,
            match line_filter {
                Some(f) => Some(f@),
                None => None,
            },
        ),
{
    let mut patch = String::new();
    push_preamble(&mut patch, path);
    let ghost lines = hunk.lines@;
    match line_filter {
        Some(filter) => {
            let mut body = String::new();
            let mut old_count: u64 = 0;
            let mut new_count: u64 = 0;
            let mut idx: usize = 0;
            while idx < hunk.lines.len()
                invariant
                    lines == hunk.lines@,
                    idx <= lines.len(),
                    body@ == filtered_text(lines, filter@, idx as int),
                    old_count == old_side_count(lines, idx as int),
                    new_count == new_side_count(lines, filter@, idx as int),
                    old_count <= idx,
                    new_count <= idx,
                decreases lines.len() - idx,
            {
                let line = &hunk.lines[idx];
                let origin = single_char(&line.origin);
                match origin {
                    Some(' ') => {
                        old_count = old_count + 1;
                        new_count = new_count + 1;
                        body.append(line.origin.as_str());
                        body.append(line.content.as_str());
                    },
                    Some('-') => {
                        old_count = old_count + 1;
                        body.append(line.origin.as_str());
                        body.append(line.content.as_str());
                    },
                    Some('+') => {
                        if contains_index(filter, idx) {
                            new_count = new_count + 1;
                            body.append(line.origin.as_str());
                            body.append(line.content.as_str());
                        }
                    },
                    _ => {},
                }
                proof {
                    lemma_single_char_seq(line.origin@, ' ');
                    lemma_single_char_seq(line.origin@, '-');
                    lemma_single_char_seq(line.origin@, '+');
                }
                idx = idx + 1;
                assert(body@ =~= filtered_text(lines, filter@, idx as int));
            }
            push_range_header(
                &mut patch,
                hunk.old_start as u64,
                old_count,
                hunk.new_start as u64,
                new_count,
            );
            patch.append(body.as_str());
        },
        None => {
            patch.append(hunk.header.as_str());
            patch.append("\n");
            let mut idx: usize = 0;
            while idx < hunk.lines.len()
                invariant
                    lines == hunk.lines@,
                    idx <= lines.len(),
                    patch@ == patch_preamble(path@) + hunk.header@ + "\n"@ + lines_text(
                        lines.take(idx as int),
                    ),
                decreases lines.len() - idx,
            {
                let line = &hunk.lines[idx];
                patch.append(line.origin.as_str());
                patch.append(line.content.as_str());
                proof {
                    assert(lines.take(idx + 1).drop_last() =~= lines.take(idx as int));
                }
                idx = idx + 1;
            }
            assert(lines.take(lines.len() as int) =~= lines);
        },
    }
    assert(patch@ =~= patch_text(
        path@,
        *hunk,
        match line_filter {
            Some(f) => Some(f@),
            None => None,
        },
    ));
    patch
}

/// Builds the patch that undoes `hunk` on the file at `path`: the old and
/// new ranges of the header are swapped and so are added and deleted lines.
pub fn build_reverse_patch(path: &str, hunk: &DiffHunk) -> (patch: String)
    ensures
        patch@ == reverse_patch_text(path@, *hunk),
{
    let mut patch = String::new();
    push_preamble(&mut patch, path);
    push_range_header(
        &mut patch,
        hunk.new_start as u64,
        hunk.new_lines as u64,
        hunk.old_start as u64,
        hunk.old_lines as u64,
    );
    let ghost start = patch@;
    let ghost lines = hunk.lines@;
    let mut idx: usize = 0;
    while idx < hunk.lines.len()
        invariant
            lines == hunk.lines@,
            idx <= lines.len(),
            patch@ == start + reversed_text(lines.take(idx as int)),
        decreases lines.len() - idx,
    {
        let line = &hunk.lines[idx];
        match single_char(&line.origin) {
            Some('+') => patch.append("-"),
            Some('-') => patch.append("+"),
            _ => patch.append(line.origin.as_str()),
        }
        patch.append(line.content.as_str());
        proof {
            reveal_strlit("-");
            reveal_strlit("+");
            lemma_single_char_seq(line.origin@, '-');
            lemma_single_char_seq(line.origin@, '+');
            assert(lines.take(idx + 1).drop_last() =~= lines.take(idx as int));
        }
        idx = idx + 1;
    }
    assert(lines.take(lines.len() as int) =~= lines);
    patch
}

} // verus!
