//! Text helpers: characters of a string, decimal rendering, line splitting.

use vstd::prelude::*;
use vstd::string::*;
use vstd::utf8::{decode_utf8, valid_utf8};

verus! {

/// The characters of `s`, in order.
pub fn chars_of(s: &str) -> (v: Vec<char>)
    ensures
        v@ == s@,
{
    let mut v: Vec<char> = Vec::new();
    for c in it: s.chars()
        invariant
            v@ == it.seq().take(it.index() as int),
    {
        v.push(c);
    }
    v
}

/// `String::push`: appends one character.
#[verifier::external_body]
pub(crate) fn push_char(s: &mut String, c: char)
    ensures
        final(s)@ == old(s)@.push(c),
{
    s.push(c)
}

/// The string made of the characters `cs`.
pub fn string_from_chars(cs: &[char]) -> (s: String)
    ensures
        s@ == cs@,
{
    let mut s = String::new();
    let mut i: usize = 0;
    while i < cs.len()
        invariant
            i <= cs@.len(),
            s@ == cs@.take(i as int),
        decreases cs@.len() - i,
    {
        push_char(&mut s, cs[i]);
        i = i + 1;
        assert(s@ =~= cs@.take(i as int));
    }
    assert(cs@.take(cs@.len() as int) =~= cs@);
    s
}

/// The decimal digit for `d < 10`.
pub open spec fn digit_char(d: nat) -> char {
    if d == 0 { '0' }
    else if d == 1 { '1' }
    else if d == 2 { '2' }
    else if d == 3 { '3' }
    else if d == 4 { '4' }
    else if d == 5 { '5' }
    else if d == 6 { '6' }
    else if d == 7 { '7' }
    else if d == 8 { '8' }
    else { '9' }
}

/// The decimal rendering of `n`, without leading zeros.
pub open spec fn decimal(n: nat) -> Seq<char>
    decreases n,
{
    if n < 10 {
        seq![digit_char(n)]
    } else {
        decimal(n / 10).push(digit_char(n % 10))
    }
}

fn digit(d: u64) -> (c: char)
    requires
        d < 10,
    ensures
        c == digit_char(d as nat),
{
    if d == 0 { '0' }
    else if d == 1 { '1' }
    else if d == 2 { '2' }
    else if d == 3 { '3' }
    else if d == 4 { '4' }
    else if d == 5 { '5' }
    else if d == 6 { '6' }
    else if d == 7 { '7' }
    else if d == 8 { '8' }
    else { '9' }
}

/// Appends the decimal rendering of `n` to `s`.
pub fn push_decimal(s: &mut String, n: u64)
    ensures
        final(s)@ == old(s)@ + decimal(n as nat),
    decreases n,
{
    if n >= 10 {
        push_decimal(s, n / 10);
    }
    push_char(s, digit(n % 10));
    assert(final(s)@ =~= old(s)@ + decimal(n as nat));
}

// ---------------------------------------------------------------------------
// Lines
// ---------------------------------------------------------------------------

/// A line terminated by a newline loses one carriage return before it.
pub open spec fn strip_cr(line: Seq<char>) -> Seq<char> {
    if line.len() > 0 && line.last() == '\r' {
        line.drop_last()
    } else {
        line
    }
}

/// The lines completed within the first `n` characters of `s`, and the
/// characters of the line still open.
pub open spec fn line_scan(s: Seq<char>, n: int) -> (Seq<Seq<char>>, Seq<char>)
    decreases n,
{
    if n <= 0 {
        (Seq::empty(), Seq::empty())
    } else {
        let (done, cur) = line_scan(s, n - 1);
        if s[n - 1] == '\n' {
            (done.push(strip_cr(cur)), Seq::empty())
        } else {
            (done, cur.push(s[n - 1]))
        }
    }
}

/// The lines of `s` as `str::lines` yields them: split at `\n`, a line
/// ended by `\r\n` loses the `\r`, and a final line ending adds no empty
/// line.
pub open spec fn lines_of(s: Seq<char>) -> Seq<Seq<char>> {
    let (done, cur) = line_scan(s, s.len() as int);
    if cur.len() > 0 {
        done.push(cur)
    } else {
        done
    }
}

/// The texts of some strings.
pub open spec fn string_texts(v: Seq<String>) -> Seq<Seq<char>> {
    v.map_values(|s: String| s@)
}

/// Splits `s` into its lines, as `str::lines` does.
pub fn lines(s: &str) -> (r: Vec<String>)
    ensures
        string_texts(r@) == lines_of(s@),
{
    let cs = chars_of(s);
    let mut done: Vec<String> = Vec::new();
    let mut cur: Vec<char> = Vec::new();
    let mut i: usize = 0;
    while i < cs.len()
        invariant
            cs@ == s@,
            i <= cs@.len(),
            string_texts(done@) == line_scan(cs@, i as int).0,
            cur@ == line_scan(cs@, i as int).1,
        decreases cs@.len() - i,
    {
        let c = cs[i];
        if c == '\n' {
            let mut line = cur;
            let len = line.len();
            if len > 0 && line[len - 1] == '\r' {
                line.pop();
                assert(line@ =~= strip_cr(line_scan(cs@, i as int).1));
            }
            let ghost before = done@;
            done.push(string_from_chars(line.as_slice()));
            proof {
                assert(string_texts(done@) =~= string_texts(before).push(
                    strip_cr(line_scan(cs@, i as int).1),
                ));
            }
            cur = Vec::new();
        } else {
            cur.push(c);
        }
        i = i + 1;
    }
    if cur.len() > 0 {
        let ghost before = done@;
        done.push(string_from_chars(cur.as_slice()));
        proof {
            assert(string_texts(done@) =~= string_texts(before).push(cur@));
        }
    }
    done
}

/// The first line of `s`, or nothing when `s` has no line.
pub open spec fn first_line(s: Seq<char>) -> Seq<char> {
    if lines_of(s).len() > 0 {
        lines_of(s)[0]
    } else {
        Seq::empty()
    }
}

proof fn lemma_line_scan_open(s: Seq<char>, n: int)
    requires
        0 <= n <= s.len(),
        forall|i: int| 0 <= i < n ==> #[trigger] s[i] != '\n',
    ensures
        line_scan(s, n).0.len() == 0,
        line_scan(s, n).1 == s.take(n),
    decreases n,
{
    if n > 0 {
        lemma_line_scan_open(s, n - 1);
        assert(s.take(n - 1).push(s[n - 1]) =~= s.take(n));
    } else {
        assert(s.take(0) =~= Seq::<char>::empty());
    }
}

proof fn lemma_line_scan_keeps_first(s: Seq<char>, m: int, n: int)
    requires
        0 <= m <= n <= s.len(),
        line_scan(s, m).0.len() > 0,
    ensures
        line_scan(s, n).0.len() > 0,
        line_scan(s, n).0[0] == line_scan(s, m).0[0],
    decreases n - m,
{
    if m < n {
        lemma_line_scan_keeps_first(s, m, n - 1);
    }
}

/// The subject of a message is its first line: the text before the first
/// newline, less a carriage return that ends it; a text without a newline
/// is its own first line.
pub proof fn lemma_first_line_before_newline(a: Seq<char>, b: Seq<char>)
    requires
        !a.contains('\n'),
    ensures
        first_line(a + seq!['\n'] + b) == strip_cr(a),
        first_line(a) == a,
{
    let s = a + seq!['\n'] + b;
    let k = a.len() as int;
    assert forall|i: int| 0 <= i < k implies #[trigger] s[i] != '\n' by {
        assert(s[i] == a[i]);
        if a[i] == '\n' {
            assert(a.contains('\n'));
        }
    }
    lemma_line_scan_open(s, k);
    assert(s.take(k) =~= a);
    assert(s[k] == '\n');
    assert(line_scan(s, k + 1).0 =~= seq![strip_cr(a)]);
    lemma_line_scan_keeps_first(s, k + 1, s.len() as int);
    assert forall|i: int| 0 <= i < k implies #[trigger] a[i] != '\n' by {
        if a[i] == '\n' {
            assert(a.contains('\n'));
        }
    }
    lemma_line_scan_open(a, k);
    assert(a.take(k) =~= a);
    if a.len() == 0 {
        assert(lines_of(a) =~= Seq::<Seq<char>>::empty());
    }
}

/// The first line of `s`, or the empty string when `s` has no line.
pub fn first_line_of(s: &str) -> (r: String)
    ensures
        r@ == first_line(s@),
{
    let ls = lines(s);
    if ls.len() > 0 {
        assert(string_texts(ls@)[0] == ls@[0]@);
        ls[0].clone()
    } else {
        String::new()
    }
}

// ---------------------------------------------------------------------------
// White space and bytes
// ---------------------------------------------------------------------------

/// Whether `c` has Unicode's `White_Space` property (the 25 code points
/// that `char::is_whitespace` accepts).
pub open spec fn has_whitespace_property(c: char) -> bool {
    let u = c as u32;
    ||| 0x9 <= u <= 0xD
    ||| u == 0x20
    ||| u == 0x85
    ||| u == 0xA0
    ||| u == 0x1680
    ||| 0x2000 <= u <= 0x200A
    ||| u == 0x2028
    ||| u == 0x2029
    ||| u == 0x202F
    ||| u == 0x205F
    ||| u == 0x3000
}

/// Whether `c` is white space, as `char::is_whitespace` tells.
pub fn is_whitespace(c: char) -> (b: bool)
    ensures
        b == has_whitespace_property(c),
{
    let u = c as u32;
    (0x9 <= u && u <= 0xD) || u == 0x20 || u == 0x85 || u == 0xA0 || u == 0x1680 || (0x2000 <= u
        && u <= 0x200A) || u == 0x2028 || u == 0x2029 || u == 0x202F || u == 0x205F || u == 0x3000
}

/// A text without its trailing white space.
pub open spec fn trim_end_text(s: Seq<char>) -> Seq<char>
    decreases s.len(),
{
    if s.len() > 0 && has_whitespace_property(s.last()) {
        trim_end_text(s.drop_last())
    } else {
        s
    }
}

/// Whether a text is all white space (an empty text is).
pub open spec fn is_blank(s: Seq<char>) -> bool {
    forall|i: int| 0 <= i < s.len() ==> has_whitespace_property(#[trigger] s[i])
}

/// `s` without its trailing white space, as `str::trim_end` gives it.
pub fn trim_end_of(s: &str) -> (r: String)
    ensures
        r@ == trim_end_text(s@),
{
    let cs = chars_of(s);
    let mut k: usize = cs.len();
    assert(cs@.take(cs@.len() as int) =~= cs@);
    while k > 0 && is_whitespace(cs[k - 1])
        invariant
            k <= cs@.len(),
            cs@ == s@,
            trim_end_text(cs@.take(k as int)) == trim_end_text(s@),
        decreases k,
    {
        assert(cs@.take(k as int).drop_last() =~= cs@.take(k - 1));
        k = k - 1;
    }
    let mut out: Vec<char> = Vec::new();
    let mut i: usize = 0;
    while i < k
        invariant
            k <= cs@.len(),
            i <= k,
            out@ == cs@.take(i as int),
        decreases k - i,
    {
        out.push(cs[i]);
        i = i + 1;
        assert(out@ =~= cs@.take(i as int));
    }
    assert(k == 0 || !has_whitespace_property(cs@.take(k as int).last()));
    string_from_chars(out.as_slice())
}

/// Whether `s` is all white space, as `str::trim` leaving nothing tells.
pub fn is_blank_str(s: &str) -> (b: bool)
    ensures
        b == is_blank(s@),
{
    let cs = chars_of(s);
    let mut i: usize = 0;
    while i < cs.len()
        invariant
            cs@ == s@,
            i <= cs@.len(),
            forall|j: int| 0 <= j < i ==> has_whitespace_property(#[trigger] cs@[j]),
        decreases cs@.len() - i,
    {
        if !is_whitespace(cs[i]) {
            return false;
        }
        i = i + 1;
    }
    true
}

/// The text that `String::from_utf8_lossy` makes of `bytes`.
pub uninterp spec fn utf8_lossy(bytes: Seq<u8>) -> Seq<char>;

/// `String::from_utf8_lossy`: the contract names its result and, as its
/// documentation says, gives the decoded text for valid UTF-8 (invalid
/// sequences become U+FFFD, which is left unstated).
#[verifier::external_body]
pub(crate) fn lossy_text(bytes: &[u8]) -> (s: String)
    ensures
        s@ == utf8_lossy(bytes@),
        valid_utf8(bytes@) ==> s@ == decode_utf8(bytes@),
{
    String::from_utf8_lossy(bytes).into_owned()
}

// ---------------------------------------------------------------------------
// Lines with their endings
// ---------------------------------------------------------------------------

/// The lines completed within the first `n` characters of `s`, each with
/// its `\n`, and the characters of the line still open.
pub open spec fn raw_scan(s: Seq<char>, n: int) -> (Seq<Seq<char>>, Seq<char>)
    decreases n,
{
    if n <= 0 {
        (Seq::empty(), Seq::empty())
    } else {
        let (done, cur) = raw_scan(s, n - 1);
        if s[n - 1] == '\n' {
            (done.push(cur.push('\n')), Seq::empty())
        } else {
            (done, cur.push(s[n - 1]))
        }
    }
}

/// The lines of `s` byte for byte: split after each `\n`, every line keeps
/// its ending (`\r\n` included), and a last line without a newline stays
/// as it is.
pub open spec fn raw_lines(s: Seq<char>) -> Seq<Seq<char>> {
    let (done, cur) = raw_scan(s, s.len() as int);
    if cur.len() > 0 {
        done.push(cur)
    } else {
        done
    }
}

/// The texts one after the other.
pub open spec fn joined(ts: Seq<Seq<char>>) -> Seq<char>
    decreases ts.len(),
{
    if ts.len() == 0 {
        Seq::empty()
    } else {
        joined(ts.drop_last()) + ts.last()
    }
}

proof fn lemma_raw_scan_joins(s: Seq<char>, n: int)
    requires
        0 <= n <= s.len(),
    ensures
        joined(raw_scan(s, n).0) + raw_scan(s, n).1 == s.take(n),
    decreases n,
{
    if n > 0 {
        lemma_raw_scan_joins(s, n - 1);
        let (done, cur) = raw_scan(s, n - 1);
        assert(s.take(n) =~= s.take(n - 1).push(s[n - 1]));
        if s[n - 1] == '\n' {
            let d2 = done.push(cur.push('\n'));
            assert(d2.drop_last() =~= done);
            assert(joined(d2) + Seq::<char>::empty() =~= joined(done) + cur.push('\n'));
        } else {
            assert(joined(done) + cur.push(s[n - 1]) =~= (joined(done) + cur).push(s[n - 1]));
        }
    }
}

/// Joining the lines of `s` gives back `s`.
pub proof fn lemma_raw_lines_join(s: Seq<char>)
    ensures
        joined(raw_lines(s)) == s,
{
    lemma_raw_scan_joins(s, s.len() as int);
    let (done, cur) = raw_scan(s, s.len() as int);
    assert(s.take(s.len() as int) =~= s);
    if cur.len() > 0 {
        assert(done.push(cur).drop_last() =~= done);
    } else {
        assert(joined(done) + cur =~= joined(done));
    }
}

/// Whether `line` holds no `\n` but, perhaps, as its last character.
pub open spec fn newline_only_at_end(line: Seq<char>) -> bool {
    forall|j: int| 0 <= j < line.len() - 1 ==> #[trigger] line[j] != '\n'
}

proof fn lemma_raw_scan_shape(s: Seq<char>, n: int)
    requires
        0 <= n <= s.len(),
    ensures
        forall|i: int|
            0 <= i < raw_scan(s, n).0.len() ==> {
                let l = #[trigger] raw_scan(s, n).0[i];
                &&& l.len() > 0
                &&& l.last() == '\n'
                &&& newline_only_at_end(l)
            },
        forall|j: int| 0 <= j < raw_scan(s, n).1.len() ==> #[trigger] raw_scan(s, n).1[j] != '\n',
    decreases n,
{
    if n > 0 {
        lemma_raw_scan_shape(s, n - 1);
        let (done, cur) = raw_scan(s, n - 1);
        if s[n - 1] == '\n' {
            let l = cur.push('\n');
            assert(newline_only_at_end(l)) by {
                assert forall|j: int| 0 <= j < l.len() - 1 implies #[trigger] l[j] != '\n' by {
                    assert(l[j] == cur[j]);
                }
            }
        } else {
            let c2 = cur.push(s[n - 1]);
            assert forall|j: int| 0 <= j < c2.len() implies #[trigger] c2[j] != '\n' by {
                if j < cur.len() {
                    assert(c2[j] == cur[j]);
                }
            }
        }
    }
}

/// The lines of a text are split after each newline and nowhere else: no
/// line is empty, a newline ends every line but the last, and none holds
/// a newline before its end.
pub proof fn lemma_raw_lines_shape(s: Seq<char>)
    ensures
        forall|i: int|
            0 <= i < raw_lines(s).len() ==> (#[trigger] raw_lines(s)[i]).len() > 0 && newline_only_at_end(
                raw_lines(s)[i],
            ),
        forall|i: int| 0 <= i < raw_lines(s).len() - 1 ==> (#[trigger] raw_lines(s)[i]).last() == '\n',
{
    lemma_raw_scan_shape(s, s.len() as int);
    let (done, cur) = raw_scan(s, s.len() as int);
    if cur.len() > 0 {
        let ls = done.push(cur);
        assert forall|i: int| 0 <= i < ls.len() implies (#[trigger] ls[i]).len() > 0 && newline_only_at_end(
            ls[i],
        ) by {
            if i < done.len() {
                assert(ls[i] == done[i]);
            }
        }
        assert forall|i: int| 0 <= i < ls.len() - 1 implies (#[trigger] ls[i]).last() == '\n' by {
            assert(ls[i] == done[i]);
        }
    }
}

/// Splits `s` into its lines, each keeping its line ending.
pub fn raw_lines_of(s: &str) -> (r: Vec<String>)
    ensures
        string_texts(r@) == raw_lines(s@),
{
    let cs = chars_of(s);
    let mut done: Vec<String> = Vec::new();
    let mut cur: Vec<char> = Vec::new();
    let mut i: usize = 0;
    while i < cs.len()
        invariant
            cs@ == s@,
            i <= cs@.len(),
            string_texts(done@) == raw_scan(cs@, i as int).0,
            cur@ == raw_scan(cs@, i as int).1,
        decreases cs@.len() - i,
    {
        let c = cs[i];
        cur.push(c);
        if c == '\n' {
            let ghost before = done@;
            done.push(string_from_chars(cur.as_slice()));
            proof {
                assert(string_texts(done@) =~= string_texts(before).push(cur@));
            }
            cur = Vec::new();
        }
        i = i + 1;
    }
    if cur.len() > 0 {
        let ghost before = done@;
        done.push(string_from_chars(cur.as_slice()));
        proof {
            assert(string_texts(done@) =~= string_texts(before).push(cur@));
        }
    }
    done
}

} // verus!
