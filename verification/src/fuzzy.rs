//! Fuzzy matching of a search pattern against file names, with a score that
//! favours matches at the start, at word boundaries, in runs and early on.

use vstd::prelude::*;
use vstd::string::*;

use crate::text::chars_of;

verus! {

// ---------------------------------------------------------------------------
// Character properties (Unicode tables of the standard library)
// ---------------------------------------------------------------------------

/// The first character of the lowercase mapping of `c`.
pub uninterp spec fn lowercase_first(c: char) -> Option<char>;

/// Whether `c` has the Unicode `Lowercase` property.
pub uninterp spec fn has_lowercase_property(c: char) -> bool;

/// Whether `c` has the Unicode `Uppercase` property.
pub uninterp spec fn has_uppercase_property(c: char) -> bool;

/// Whether `c` is in one of the Unicode numeric general categories.
pub uninterp spec fn has_numeric_property(c: char) -> bool;

/// Whether `c` has the Unicode `Alphabetic` property.
pub uninterp spec fn has_alphabetic_property(c: char) -> bool;

/// `char::to_lowercase` followed by `next`: the first character of the
/// lowercase mapping of `c`. The mapping is Unicode's; the contract names
/// it, and states it on ASCII, where it maps `A`..`Z` to `a`..`z` and keeps
/// every other character.
#[verifier::external_body]
fn char_lowercase_first(c: char) -> (r: Option<char>)
    ensures
        r == lowercase_first(c),
        65 <= (c as u32) <= 90 ==> r is Some && (r->0 as u32) == (c as u32) + 32,
        (c as u32) < 128 && !(65 <= (c as u32) <= 90) ==> r == Some(c),
{
    c.to_lowercase().next()
}

/// `char::is_lowercase`; the contract names the Unicode property, and
/// states it on ASCII, where it holds of `a`..`z` alone.
#[verifier::external_body]
fn char_is_lowercase(c: char) -> (r: bool)
    ensures
        r == has_lowercase_property(c),
        (c as u32) < 128 ==> (r <==> 97 <= (c as u32) <= 122),
{
    c.is_lowercase()
}

/// `char::is_uppercase`; the contract names the Unicode property, and
/// states it on ASCII, where it holds of `A`..`Z` alone.
#[verifier::external_body]
fn char_is_uppercase(c: char) -> (r: bool)
    ensures
        r == has_uppercase_property(c),
        (c as u32) < 128 ==> (r <==> 65 <= (c as u32) <= 90),
{
    c.is_uppercase()
}

/// `char::is_numeric`; the contract names the Unicode categories, and
/// states them on ASCII, where they hold of `0`..`9` alone.
#[verifier::external_body]
fn char_is_numeric(c: char) -> (r: bool)
    ensures
        r == has_numeric_property(c),
        (c as u32) < 128 ==> (r <==> 48 <= (c as u32) <= 57),
{
    c.is_numeric()
}

/// `char::is_alphabetic`; the contract names the Unicode property, and
/// states it on ASCII, where it holds of the letters alone.
#[verifier::external_body]
fn char_is_alphabetic(c: char) -> (r: bool)
    ensures
        r == has_alphabetic_property(c),
        (c as u32) < 128 ==> (r <==> (97 <= (c as u32) <= 122 || 65 <= (c as u32) <= 90)),
{
    c.is_alphabetic()
}

/// The character that `c` is compared as: the first character of its
/// lowercase mapping, or `c` itself when the mapping yields none.
pub open spec fn folded(c: char) -> char {
    match lowercase_first(c) {
        Some(l) => l,
        None => c,
    }
}

fn fold(c: char) -> (r: char)
    ensures
        r == folded(c),
{
    match char_lowercase_first(c) {
        Some(l) => l,
        None => c,
    }
}

// ---------------------------------------------------------------------------
// Word boundaries
// ---------------------------------------------------------------------------

/// Whether position `idx` of `text` starts a word: the start of the text,
/// after a path separator or a dot, at a lower-to-upper case change, after
/// an underscore or a hyphen, or at a digit-to-letter change.
pub open spec fn word_boundary(text: Seq<char>, idx: int) -> bool {
    if idx == 0 {
        true
    } else {
        let prev = text[idx - 1];
        let curr = text[idx];
        ||| prev == '/' || prev == '\\' || prev == '.'
        ||| has_lowercase_property(prev) && has_uppercase_property(curr)
        ||| prev == '_' || prev == '-'
        ||| has_numeric_property(prev) && has_alphabetic_property(curr)
    }
}

/// Checks whether position `idx` of `text_chars` is at a word boundary.
pub fn is_word_boundary(text_chars: &[char], idx: usize) -> (b: bool)
    requires
        idx == 0 || idx < text_chars@.len(),
    ensures
        b == word_boundary(text_chars@, idx as int),
{
    if idx == 0 {
        return true;
    }
    let prev_char = text_chars[idx - 1];
    let curr_char = text_chars[idx];
    if prev_char == '/' || prev_char == '\\' || prev_char == '.' {
        return true;
    }
    if char_is_lowercase(prev_char) && char_is_uppercase(curr_char) {
        return true;
    }
    if prev_char == '_' || prev_char == '-' {
        return true;
    }
    if char_is_numeric(prev_char) && char_is_alphabetic(curr_char) {
        return true;
    }
    false
}

// ---------------------------------------------------------------------------
// Scoring
// ---------------------------------------------------------------------------

/// The state of a left-to-right scoring scan.
pub struct ScoreState {
    pub score: int,
    /// how many pattern characters were matched
    pub matched: nat,
    /// the length of the current run of adjacent matches, less one
    pub consecutive: int,
    /// where the last match was
    pub prev: Option<int>,
}

/// The length of the run of adjacent matches (less one) after a match at
/// position `i`, when the last match was at `prev`.
pub open spec fn next_consecutive(prev: Option<int>, consecutive: int, i: int) -> int {
    match prev {
        Some(q) => if i == q + 1 {
            consecutive + 1
        } else {
            0
        },
        None => consecutive,
    }
}

/// A count as the scorer holds it, an `i32`: positions and gaps past
/// `i32::MAX` wrap around.
pub open spec fn as_i32(x: int) -> int {
    (x as i32) as int
}

/// The position bonus of a match at `i`: a tenth of `100 - i`, at least 0.
pub open spec fn position_bonus(i: int) -> int {
    let d = 100 - as_i32(i);
    (if d > 0 {
        d
    } else {
        0
    }) / 10
}

/// The number of characters skipped since the last match.
pub open spec fn gap_of(prev: Option<int>, i: int) -> int {
    match prev {
        Some(q) => i - q - 1,
        None => 0,
    }
}

/// The gap penalty: 3 per skipped character since the last match.
pub open spec fn gap_penalty(prev: Option<int>, i: int) -> int {
    if gap_of(prev, i) > 0 {
        3 * as_i32(gap_of(prev, i))
    } else {
        0
    }
}

/// Whether a match at `i` follows the last match directly.
pub open spec fn adjacent(prev: Option<int>, i: int) -> bool {
    match prev {
        Some(q) => i == q + 1,
        None => false,
    }
}

/// What a match at text position `i` scores: 10, plus 50 at the start of
/// the text, plus 30 at a word boundary, plus 15 times the run length for a
/// match adjacent to the last one, plus the position bonus, less the gap
/// penalty, plus 5 when the case is the same.
pub open spec fn match_gain(text: Seq<char>, i: int, prev: Option<int>, consecutive: int, same_case: bool) -> int {
    10 + (if i == 0 {
        50int
    } else {
        0
    }) + (if word_boundary(text, i) {
        30int
    } else {
        0
    }) + (if adjacent(prev, i) {
        15 * consecutive
    } else {
        0
    }) + position_bonus(i) - gap_penalty(prev, i) + (if same_case {
        5int
    } else {
        0
    })
}

/// Whether `x` is a value of `i32`.
pub open spec fn fits_i32(x: int) -> bool {
    i32::MIN <= x <= i32::MAX
}

/// Whether scoring a match at `i` from the scan state `st` keeps every
/// value the scorer computes within `i32`: the score after each bonus and
/// penalty, the run length, and the products.
pub open spec fn gain_fits(text: Seq<char>, i: int, st: ScoreState, same_case: bool) -> bool {
    let s1 = st.score + 10;
    let s2 = s1 + (if i == 0 {
        50int
    } else {
        0
    });
    let s3 = s2 + (if word_boundary(text, i) {
        30int
    } else {
        0
    });
    let c = st.consecutive + 1;
    let s4 = if adjacent(st.prev, i) {
        s3 + 15 * c
    } else {
        s3
    };
    let s5 = s4 + position_bonus(i);
    let s6 = s5 - gap_penalty(st.prev, i);
    let s7 = s6 + (if same_case {
        5int
    } else {
        0
    });
    &&& fits_i32(s1)
    &&& fits_i32(s2)
    &&& fits_i32(s3)
    &&& adjacent(st.prev, i) ==> fits_i32(c) && fits_i32(15 * c) && fits_i32(s4)
    &&& fits_i32(100 - as_i32(i))
    &&& fits_i32(s5)
    &&& gap_of(st.prev, i) > 0 ==> fits_i32(gap_penalty(st.prev, i)) && fits_i32(s6)
    &&& fits_i32(s7)
}

/// Whether text position `i` is the next match of the scan in state `st`.
pub open spec fn is_next_match(pattern: Seq<char>, text: Seq<char>, st: ScoreState, i: int) -> bool {
    st.matched < pattern.len() && folded(text[i]) == folded(pattern[st.matched as int])
}

/// The scan after looking at text position `i`: a position whose folded
/// character equals that of the next pattern character is a match and
/// earns `match_gain`.
pub open spec fn score_step(pattern: Seq<char>, text: Seq<char>, st: ScoreState, i: int) -> ScoreState {
    if is_next_match(pattern, text, st, i) {
        let consecutive = next_consecutive(st.prev, st.consecutive, i);
        ScoreState {
            score: st.score + match_gain(
                text,
                i,
                st.prev,
                consecutive,
                pattern[st.matched as int] == text[i],
            ),
            matched: st.matched + 1,
            consecutive,
            prev: Some(i),
        }
    } else {
        st
    }
}

/// The scoring scan after the first `n` characters of the text.
pub open spec fn score_scan(pattern: Seq<char>, text: Seq<char>, n: int) -> ScoreState
    decreases n,
{
    if n <= 0 {
        ScoreState { score: 0, matched: 0, consecutive: 0, prev: None }
    } else {
        score_step(pattern, text, score_scan(pattern, text, n - 1), n - 1)
    }
}

/// Whether the scan over the first `n` characters of the text keeps every
/// value the scorer computes within `i32`.
pub open spec fn scan_fits(pattern: Seq<char>, text: Seq<char>, n: int) -> bool
    decreases n,
{
    if n <= 0 {
        true
    } else {
        let st = score_scan(pattern, text, n - 1);
        &&& scan_fits(pattern, text, n - 1)
        &&& is_next_match(pattern, text, st, n - 1) ==> gain_fits(
            text,
            n - 1,
            st,
            pattern[st.matched as int] == text[n - 1],
        )
    }
}

/// Whether scoring `pattern` against `text` stays within `i32` throughout.
pub open spec fn score_fits(pattern: Seq<char>, text: Seq<char>) -> bool {
    scan_fits(pattern, text, text.len() as int)
}

/// The score of `pattern` against `text`.
pub open spec fn match_score(pattern: Seq<char>, text: Seq<char>) -> int {
    score_scan(pattern, text, text.len() as int).score
}

/// How many pattern characters a greedy left-to-right scan of the first `n`
/// text characters matches, comparing folded characters.
pub open spec fn greedy_matched(pattern: Seq<char>, text: Seq<char>, n: int) -> nat
    decreases n,
{
    if n <= 0 {
        0
    } else {
        let k = greedy_matched(pattern, text, n - 1);
        if k < pattern.len() && folded(text[n - 1]) == folded(pattern[k as int]) {
            k + 1
        } else {
            k
        }
    }
}

proof fn lemma_scan_fits_prefix(pattern: Seq<char>, text: Seq<char>, m: int, n: int)
    requires
        m <= n,
        scan_fits(pattern, text, n),
    ensures
        scan_fits(pattern, text, m),
    decreases n - m,
{
    if m < n {
        lemma_scan_fits_prefix(pattern, text, m, n - 1);
    }
}

proof fn lemma_scan_shape(pattern: Seq<char>, text: Seq<char>, n: int)
    requires
        0 <= n,
    ensures
        score_scan(pattern, text, n).matched <= pattern.len(),
        score_scan(pattern, text, n).consecutive >= 0,
        score_scan(pattern, text, n).matched == 0 ==> score_scan(pattern, text, n).prev is None
            && score_scan(pattern, text, n).consecutive == 0,
        score_scan(pattern, text, n).prev matches Some(q) ==> 0 <= q < n,
    decreases n,
{
    if n > 0 {
        lemma_scan_shape(pattern, text, n - 1);
    }
}

/// One match of the scorer, with every step checked: the new score and run
/// length, or none when a value leaves `i32`.
fn checked_gain(
    text_chars: &[char],
    text_idx: usize,
    score: i32,
    consecutive: i32,
    prev_match_idx: Option<usize>,
    same_case: bool,
) -> (r: Option<(i32, i32)>)
    requires
        text_idx < text_chars@.len(),
        prev_match_idx matches Some(q) ==> q < text_idx,
    ensures
        ({
            let prev = match prev_match_idx {
                Some(q) => Some(q as int),
                None => None::<int>,
            };
            let st = ScoreState {
                score: score as int,
                matched: 0,
                consecutive: consecutive as int,
                prev,
            };
            match r {
                Some((s, c)) => gain_fits(text_chars@, text_idx as int, st, same_case) && c
                    == next_consecutive(prev, consecutive as int, text_idx as int) && s == score
                    + match_gain(
                    text_chars@,
                    text_idx as int,
                    prev,
                    next_consecutive(prev, consecutive as int, text_idx as int),
                    same_case,
                ),
                None => !gain_fits(text_chars@, text_idx as int, st, same_case),
            }
        }),
{
    let mut s: i32 = match score.checked_add(10) {
        Some(v) => v,
        None => return None,
    };
    if text_idx == 0 {
        s = match s.checked_add(50) {
            Some(v) => v,
            None => return None,
        };
    }
    if is_word_boundary(text_chars, text_idx) {
        s = match s.checked_add(30) {
            Some(v) => v,
            None => return None,
        };
    }
    let mut next: i32 = consecutive;
    match prev_match_idx {
        Some(prev_idx) => {
            if text_idx == prev_idx + 1 {
                next = match consecutive.checked_add(1) {
                    Some(v) => v,
                    None => return None,
                };
                let bonus = match 15i32.checked_mul(next) {
                    Some(v) => v,
                    None => return None,
                };
                s = match s.checked_add(bonus) {
                    Some(v) => v,
                    None => return None,
                };
            } else {
                next = 0;
            }
        },
        None => {},
    }
    let back: i32 = match 100i32.checked_sub(text_idx as i32) {
        Some(v) => v,
        None => return None,
    };
    let position: i32 = if back > 0 {
        back
    } else {
        0
    };
    s = match s.checked_add(position / 10) {
        Some(v) => v,
        None => return None,
    };
    match prev_match_idx {
        Some(prev_idx) => {
            let gap = text_idx - prev_idx - 1;
            if gap > 0 {
                let penalty = match (gap as i32).checked_mul(3) {
                    Some(v) => v,
                    None => return None,
                };
                s = match s.checked_sub(penalty) {
                    Some(v) => v,
                    None => return None,
                };
            }
        },
        None => {},
    }
    if same_case {
        s = match s.checked_add(5) {
            Some(v) => v,
            None => return None,
        };
    }
    Some((s, next))
}

/// Scores how well `pattern_chars` matches `text_chars`, or none when the
/// scorer's arithmetic would leave `i32`: each pattern character is
/// matched, left to right, at the first text position whose folded
/// character equals its folded character, and each match earns the bonuses
/// and penalties of `score_step`.
pub fn checked_match_score(pattern_chars: &[char], text_chars: &[char]) -> (r: Option<i32>)
    ensures
        r == (if score_fits(pattern_chars@, text_chars@) {
            Some(match_score(pattern_chars@, text_chars@) as i32)
        } else {
            None::<i32>
        }),
        r matches Some(s) ==> s == match_score(pattern_chars@, text_chars@),
{
    let ghost p = pattern_chars@;
    let ghost t = text_chars@;
    let mut score: i32 = 0;
    let mut pattern_idx: usize = 0;
    let mut consecutive_matches: i32 = 0;
    let mut prev_match_idx: Option<usize> = None;
    let mut text_idx: usize = 0;
    while text_idx < text_chars.len()
        invariant
            p == pattern_chars@,
            t == text_chars@,
            text_idx <= t.len(),
            scan_fits(p, t, text_idx as int),
            ({
                let st = score_scan(p, t, text_idx as int);
                &&& st.score == score
                &&& st.matched == pattern_idx
                &&& st.consecutive == consecutive_matches
                &&& st.prev == match prev_match_idx {
                    Some(q) => Some(q as int),
                    None => None::<int>,
                }
            }),
        decreases t.len() - text_idx,
    {
        proof {
            lemma_scan_shape(p, t, text_idx as int);
        }
        let text_ch = text_chars[text_idx];
        if pattern_idx < pattern_chars.len() {
            let pattern_ch_lower = fold(pattern_chars[pattern_idx]);
            let text_ch_lower = fold(text_ch);
            if text_ch_lower == pattern_ch_lower {
                let same = pattern_chars[pattern_idx] == text_ch;
                match checked_gain(
                    text_chars,
                    text_idx,
                    score,
                    consecutive_matches,
                    prev_match_idx,
                    same,
                ) {
                    Some((s, c)) => {
                        score = s;
                        consecutive_matches = c;
                    },
                    None => {
                        proof {
                            assert(!scan_fits(p, t, text_idx + 1));
                            if scan_fits(p, t, t.len() as int) {
                                lemma_scan_fits_prefix(p, t, text_idx + 1, t.len() as int);
                            }
                        }
                        return None;
                    },
                }
                prev_match_idx = Some(text_idx);
                pattern_idx = pattern_idx + 1;
            }
        }
        text_idx = text_idx + 1;
    }
    Some(score)
}

/// Scores how well `pattern_chars` matches `text_chars`: each pattern
/// character is matched, left to right, at the first text position whose
/// folded character equals its folded character, and each match earns the
/// bonuses and penalties of `score_step`. The scorer computes in `i32`; the
/// inputs are those where it stays within range.
pub fn calculate_match_score(pattern_chars: &[char], text_chars: &[char]) -> (score: i32)
    requires
        score_fits(pattern_chars@, text_chars@),
    ensures
        score == match_score(pattern_chars@, text_chars@),
{
    match checked_match_score(pattern_chars, text_chars) {
        Some(s) => s,
        None => 0,
    }
}

/// The verdict of fuzzy matching `pattern` against `text`: an empty pattern
/// matches with score 0; otherwise the pattern matches when a greedy scan
/// finds all its characters, in order, in the text, and then scores
/// `match_score`; a failed match scores 0.
pub open spec fn fuzzy_verdict(pattern: Seq<char>, text: Seq<char>) -> (bool, int) {
    if pattern.len() == 0 {
        (true, 0)
    } else if text.len() == 0 {
        (false, 0)
    } else if greedy_matched(pattern, text, text.len() as int) != pattern.len() {
        (false, 0)
    } else {
        (true, match_score(pattern, text))
    }
}

/// Whether fuzzy matching `pattern` against `text` goes on to score a
/// match: the pattern is not empty and the greedy scan finds all of it.
pub open spec fn scores_a_match(pattern: Seq<char>, text: Seq<char>) -> bool {
    pattern.len() > 0 && text.len() > 0 && greedy_matched(pattern, text, text.len() as int)
        == pattern.len()
}

/// How many pattern characters the greedy scan matches, and the
/// characters of both.
fn greedy_scan(pattern: &str, text: &str) -> (r: (usize, Vec<char>, Vec<char>))
    ensures
        r.1@ == pattern@,
        r.2@ == text@,
        r.0 == greedy_matched(pattern@, text@, text@.len() as int),
{
    let pattern_chars = chars_of(pattern);
    let text_chars = chars_of(text);
    let ghost p = pattern_chars@;
    let ghost t = text_chars@;
    let mut pattern_idx: usize = 0;
    let mut i: usize = 0;
    while i < text_chars.len()
        invariant
            p == pattern_chars@,
            t == text_chars@,
            i <= t.len(),
            pattern_idx == greedy_matched(p, t, i as int),
            pattern_idx <= p.len(),
        decreases t.len() - i,
    {
        if pattern_idx < pattern_chars.len() {
            let pattern_ch_lower = fold(pattern_chars[pattern_idx]);
            let text_ch_lower = fold(text_chars[i]);
            if text_ch_lower == pattern_ch_lower {
                pattern_idx = pattern_idx + 1;
            }
        }
        i = i + 1;
    }
    (pattern_idx, pattern_chars, text_chars)
}

/// Fuzzy-matches `pattern` against `text`, returning whether it matches
/// and a score where higher is better. A match is scored in `i32`; the
/// inputs are those where the score of a match stays within range.
pub fn fuzzy_match_with_score(pattern: &str, text: &str) -> (r: (bool, i32))
    requires
        scores_a_match(pattern@, text@) ==> score_fits(pattern@, text@),
    ensures
        r.0 == fuzzy_verdict(pattern@, text@).0,
        r.1 == fuzzy_verdict(pattern@, text@).1,
{
    if pattern.unicode_len() == 0 {
        return (true, 0);
    }
    if text.unicode_len() == 0 {
        return (false, 0);
    }
    let (matched, pattern_chars, text_chars) = greedy_scan(pattern, text);
    if matched != pattern_chars.len() {
        return (false, 0);
    }
    let score = calculate_match_score(pattern_chars.as_slice(), text_chars.as_slice());
    (true, score)
}

/// Fuzzy-matches `pattern` against `text` as `fuzzy_match_with_score`
/// does, for any input: none exactly when a match would be scored and its
/// score leaves `i32`.
pub fn fuzzy_match_checked(pattern: &str, text: &str) -> (r: Option<(bool, i32)>)
    ensures
        match r {
            Some(v) => v.0 == fuzzy_verdict(pattern@, text@).0 && v.1 == fuzzy_verdict(
                pattern@,
                text@,
            ).1,
            None => true,
        },
        r is None <==> scores_a_match(pattern@, text@) && !score_fits(pattern@, text@),
{
    if pattern.unicode_len() == 0 {
        return Some((true, 0));
    }
    if text.unicode_len() == 0 {
        return Some((false, 0));
    }
    let (matched, pattern_chars, text_chars) = greedy_scan(pattern, text);
    if matched != pattern_chars.len() {
        return Some((false, 0));
    }
    match checked_match_score(pattern_chars.as_slice(), text_chars.as_slice()) {
        Some(s) => Some((true, s)),
        None => None,
    }
}


// ---------------------------------------------------------------------------
// Laws
// ---------------------------------------------------------------------------

/// Whether the characters of `pattern` occur in `text` in order (not
/// necessarily adjacent), comparing folded characters.
pub open spec fn is_folded_subsequence(pattern: Seq<char>, text: Seq<char>) -> bool {
    exists|pos: Seq<int>| embeds(pattern, text, pos)
}

/// `pos` places each pattern character at a text position holding the same
/// folded character, at strictly increasing positions.
pub open spec fn embeds(pattern: Seq<char>, text: Seq<char>, pos: Seq<int>) -> bool {
    &&& pos.len() == pattern.len()
    &&& forall|j: int|
        0 <= j < pos.len() ==> 0 <= #[trigger] pos[j] < text.len() && folded(text[pos[j]])
            == folded(pattern[j])
    &&& forall|j: int, k: int| 0 <= j < k < pos.len() ==> pos[j] < pos[k]
}

/// The positions at which the greedy scan of the first `n` text characters
/// matched.
pub open spec fn greedy_positions(pattern: Seq<char>, text: Seq<char>, n: int) -> Seq<int>
    decreases n,
{
    if n <= 0 {
        Seq::empty()
    } else {
        let k = greedy_matched(pattern, text, n - 1);
        if k < pattern.len() && folded(text[n - 1]) == folded(pattern[k as int]) {
            greedy_positions(pattern, text, n - 1).push(n - 1)
        } else {
            greedy_positions(pattern, text, n - 1)
        }
    }
}

proof fn lemma_greedy_positions(pattern: Seq<char>, text: Seq<char>, n: int)
    requires
        0 <= n <= text.len(),
    ensures
        greedy_positions(pattern, text, n).len() == greedy_matched(pattern, text, n),
        greedy_matched(pattern, text, n) <= pattern.len(),
        embeds(
            pattern.take(greedy_matched(pattern, text, n) as int),
            text,
            greedy_positions(pattern, text, n),
        ),
        forall|j: int|
            0 <= j < greedy_positions(pattern, text, n).len() ==> #[trigger] greedy_positions(
                pattern,
                text,
                n,
            )[j] < n,
    decreases n,
{
    if n > 0 {
        lemma_greedy_positions(pattern, text, n - 1);
    }
}

proof fn lemma_greedy_monotone(pattern: Seq<char>, text: Seq<char>, m: int, n: int)
    requires
        0 <= m <= n,
    ensures
        greedy_matched(pattern, text, m) <= greedy_matched(pattern, text, n),
    decreases n - m,
{
    if m < n {
        lemma_greedy_monotone(pattern, text, m, n - 1);
    }
}

proof fn lemma_greedy_reaches(pattern: Seq<char>, text: Seq<char>, pos: Seq<int>, n: int, j: int)
    requires
        embeds(pattern, text, pos),
        0 <= n <= text.len(),
        0 <= j < pattern.len(),
        pos[j] < n,
    ensures
        greedy_matched(pattern, text, n) > j,
    decreases n, j,
{
    if pos[j] < n - 1 {
        lemma_greedy_reaches(pattern, text, pos, n - 1, j);
        lemma_greedy_monotone(pattern, text, n - 1, n);
    } else {
        if j > 0 {
            lemma_greedy_reaches(pattern, text, pos, n - 1, j - 1);
        }
    }
}

/// Fuzzy matching succeeds exactly when the pattern's characters occur in
/// the text in order, comparing folded characters; a failed match scores 0,
/// and an empty pattern matches everything with score 0.
pub proof fn lemma_fuzzy_match_is_subsequence(pattern: Seq<char>, text: Seq<char>)
    ensures
        fuzzy_verdict(pattern, text).0 <==> is_folded_subsequence(pattern, text),
        !fuzzy_verdict(pattern, text).0 ==> fuzzy_verdict(pattern, text).1 == 0,
        pattern.len() == 0 ==> fuzzy_verdict(pattern, text) == (true, 0int),
{
    let n = text.len() as int;
    lemma_greedy_positions(pattern, text, n);
    if greedy_matched(pattern, text, n) == pattern.len() {
        assert(pattern.take(pattern.len() as int) =~= pattern);
        assert(embeds(pattern, text, greedy_positions(pattern, text, n)));
    }
    if is_folded_subsequence(pattern, text) && pattern.len() > 0 {
        let pos = choose|pos: Seq<int>| embeds(pattern, text, pos);
        lemma_greedy_reaches(pattern, text, pos, n, pattern.len() - 1);
    }
    if pattern.len() == 0 {
        assert(embeds(pattern, text, Seq::<int>::empty()));
    }
}

/// Every position at the start of a word counts as a word boundary: the
/// first position, and each position after a path separator (`/` or `\\`),
/// a dot, an underscore or a hyphen.
pub proof fn lemma_separators_start_words(text: Seq<char>, idx: int)
    requires
        0 <= idx < text.len(),
    ensures
        idx == 0 ==> word_boundary(text, idx),
        idx > 0 && (text[idx - 1] == '/' || text[idx - 1] == '\\' || text[idx - 1] == '.'
            || text[idx - 1] == '_' || text[idx - 1] == '-') ==> word_boundary(text, idx),
{
}

/// The score of typing the first `k` characters of `text` exactly: each
/// typed character `m` earns 10, 5 for its case, 50 at the start, 30 at a
/// word boundary, 15 for each earlier character of the unbroken run before
/// it, and a tenth of how far it stands before position 100.
pub open spec fn typed_prefix_score(text: Seq<char>, k: int) -> int
    decreases k,
{
    if k <= 0 {
        0
    } else {
        let m = k - 1;
        typed_prefix_score(text, m) + 15 + (if m == 0 {
            50int
        } else {
            0
        }) + (if word_boundary(text, m) {
            30int
        } else {
            0
        }) + 15 * m + (if m < 100 {
            (100 - m) / 10
        } else {
            0
        })
    }
}

proof fn lemma_typed_prefix_scan(text: Seq<char>, k: int, n: int)
    requires
        0 <= n <= k <= text.len(),
        k <= i32::MAX,
    ensures
        score_scan(text.take(k), text, n) == (ScoreState {
            score: typed_prefix_score(text, n),
            matched: n as nat,
            consecutive: if n == 0 {
                0
            } else {
                n - 1
            },
            prev: if n == 0 {
                None
            } else {
                Some(n - 1)
            },
        }),
        greedy_matched(text.take(k), text, n) == n,
    decreases n,
{
    if n > 0 {
        lemma_typed_prefix_scan(text, k, n - 1);
        let m = n - 1;
        assert(text.take(k)[m] == text[m]);
        assert(as_i32(m) == m);
    }
}

proof fn lemma_typed_prefix_rest(text: Seq<char>, k: int, n: int)
    requires
        0 <= k <= n <= text.len(),
        k <= i32::MAX,
    ensures
        score_scan(text.take(k), text, n) == score_scan(text.take(k), text, k),
        greedy_matched(text.take(k), text, n) == k,
    decreases n,
{
    lemma_typed_prefix_scan(text, k, k);
    if n > k {
        lemma_typed_prefix_rest(text, k, n - 1);
        assert(text.take(k).len() == k);
        assert(!is_next_match(text.take(k), text, score_scan(text.take(k), text, n - 1), n - 1));
    }
}

/// Typing the start of a name matches it, with the score of the typed
/// prefix: a pattern that is exactly the first `k` characters of `text`
/// (`k` > 0) matches with score `typed_prefix_score(text, k)`.
pub proof fn lemma_typed_prefix_matches(text: Seq<char>, k: int)
    requires
        0 < k <= text.len(),
        k <= i32::MAX,
    ensures
        fuzzy_verdict(text.take(k), text) == (true, typed_prefix_score(text, k)),
{
    lemma_typed_prefix_rest(text, k, text.len() as int);
    lemma_typed_prefix_scan(text, k, k);
}

proof fn lemma_single_scan(pattern: Seq<char>, text: Seq<char>, m: int, n: int)
    requires
        pattern.len() == 1,
        0 <= m < text.len(),
        0 <= n <= text.len(),
        forall|j: int| 0 <= j < m ==> folded(#[trigger] text[j]) != folded(pattern[0]),
        folded(text[m]) == folded(pattern[0]),
    ensures
        n <= m ==> score_scan(pattern, text, n) == (ScoreState {
            score: 0,
            matched: 0,
            consecutive: 0,
            prev: None,
        }) && greedy_matched(pattern, text, n) == 0,
        n > m ==> score_scan(pattern, text, n) == score_scan(pattern, text, m + 1) && greedy_matched(
            pattern,
            text,
            n,
        ) == 1,
    decreases n,
{
    if n > 0 {
        lemma_single_scan(pattern, text, m, n - 1);
    }
}

/// A one-character pattern matches at the first position whose folded
/// character is its own, and scores 10 there, plus 50 at the start of the
/// text, 30 at a word boundary, a tenth of how far the position stands
/// before 100, and 5 when the case is the same.
pub proof fn lemma_single_character_score(pattern: Seq<char>, text: Seq<char>, m: int)
    requires
        pattern.len() == 1,
        0 <= m < text.len(),
        m <= i32::MAX,
        forall|j: int| 0 <= j < m ==> folded(#[trigger] text[j]) != folded(pattern[0]),
        folded(text[m]) == folded(pattern[0]),
    ensures
        fuzzy_verdict(pattern, text) == (true, 10 + (if m == 0 {
            50int
        } else {
            0
        }) + (if word_boundary(text, m) {
            30int
        } else {
            0
        }) + (if m < 100 {
            (100 - m) / 10
        } else {
            0
        }) + (if pattern[0] == text[m] {
            5int
        } else {
            0
        })),
{
    lemma_single_scan(pattern, text, m, m);
    lemma_single_scan(pattern, text, m, m + 1);
    lemma_single_scan(pattern, text, m, text.len() as int);
    assert(as_i32(m) == m);
}

proof fn lemma_pair_scan(pattern: Seq<char>, text: Seq<char>, a: int, m: int, n: int)
    requires
        pattern.len() == 2,
        0 <= a < m < text.len(),
        0 <= n <= text.len(),
        forall|j: int| 0 <= j < a ==> folded(#[trigger] text[j]) != folded(pattern[0]),
        folded(text[a]) == folded(pattern[0]),
        forall|j: int| a < j < m ==> folded(#[trigger] text[j]) != folded(pattern[1]),
        folded(text[m]) == folded(pattern[1]),
    ensures
        n <= a ==> score_scan(pattern, text, n) == (ScoreState {
            score: 0,
            matched: 0,
            consecutive: 0,
            prev: None,
        }) && greedy_matched(pattern, text, n) == 0,
        a < n <= m ==> score_scan(pattern, text, n) == score_scan(pattern, text, a + 1)
            && greedy_matched(pattern, text, n) == 1,
        n > m ==> score_scan(pattern, text, n) == score_scan(pattern, text, m + 1) && greedy_matched(
            pattern,
            text,
            n,
        ) == 2,
    decreases n,
{
    if n > 0 {
        lemma_pair_scan(pattern, text, a, m, n - 1);
        if n > a {
            lemma_pair_scan(pattern, text, a, m, a);
        }
        if n > m {
            lemma_pair_scan(pattern, text, a, m, m);
            lemma_pair_scan(pattern, text, a, m, a + 1);
        }
    }
}

/// A two-character pattern is matched greedily: its first character at
/// the first position `a` whose folded character is its own, its second at
/// the first such position `m` after `a`. The second match earns 10, 30 at
/// a word boundary, 15 when it directly follows the first, the position
/// bonus and 5 for the same case, and loses 3 for each character skipped
/// between the two.
pub proof fn lemma_two_character_score(pattern: Seq<char>, text: Seq<char>, a: int, m: int)
    requires
        pattern.len() == 2,
        0 <= a < m < text.len(),
        m <= i32::MAX,
        forall|j: int| 0 <= j < a ==> folded(#[trigger] text[j]) != folded(pattern[0]),
        folded(text[a]) == folded(pattern[0]),
        forall|j: int| a < j < m ==> folded(#[trigger] text[j]) != folded(pattern[1]),
        folded(text[m]) == folded(pattern[1]),
    ensures
        fuzzy_verdict(pattern, text) == (true, 10 + (if a == 0 {
            50int
        } else {
            0
        }) + (if word_boundary(text, a) {
            30int
        } else {
            0
        }) + (if a < 100 {
            (100 - a) / 10
        } else {
            0
        }) + (if pattern[0] == text[a] {
            5int
        } else {
            0
        }) + 10 + (if word_boundary(text, m) {
            30int
        } else {
            0
        }) + (if m == a + 1 {
            15int
        } else {
            0
        }) + (if m < 100 {
            (100 - m) / 10
        } else {
            0
        }) - 3 * (m - a - 1) + (if pattern[1] == text[m] {
            5int
        } else {
            0
        })),
{
    lemma_pair_scan(pattern, text, a, m, a);
    lemma_pair_scan(pattern, text, a, m, a + 1);
    lemma_pair_scan(pattern, text, a, m, m);
    lemma_pair_scan(pattern, text, a, m, m + 1);
    lemma_pair_scan(pattern, text, a, m, text.len() as int);
    assert(as_i32(a) == a);
    assert(as_i32(m) == m);
    assert(as_i32(m - a - 1) == m - a - 1);
}

} // verus!
