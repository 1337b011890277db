//! Paths as text: their `/`-separated components.

use vstd::prelude::*;
use vstd::string::*;

use crate::text::chars_of;

verus! {

/// The components of a path: the pieces between `/` separators.
pub open spec fn segments(path: Seq<char>) -> Seq<Seq<char>>
    decreases path.len(),
{
    if path.len() == 0 {
        seq![Seq::empty()]
    } else if path.last() == '/' {
        segments(path.drop_last()).push(Seq::empty())
    } else {
        let s = segments(path.drop_last());
        s.update(s.len() - 1, s.last().push(path.last()))
    }
}

pub proof fn lemma_segments_nonempty(path: Seq<char>)
    ensures
        segments(path).len() > 0,
    decreases path.len(),
{
    if path.len() > 0 {
        lemma_segments_nonempty(path.drop_last());
    }
}

/// A text without `/` is a single component.
pub proof fn lemma_segments_of_name(t: Seq<char>)
    requires
        !t.contains('/'),
    ensures
        segments(t) == seq![t],
    decreases t.len(),
{
    if t.len() > 0 {
        let u = t.drop_last();
        assert(!u.contains('/')) by {
            if u.contains('/') {
                let k = choose|k: int| 0 <= k < u.len() && u[k] == '/';
                assert(t[k] == '/');
            }
        }
        lemma_segments_of_name(u);
        assert(t.last() != '/') by {
            if t.last() == '/' {
                assert(t[t.len() - 1] == '/');
            }
        }
        assert(u.push(t.last()) =~= t);
        assert(seq![u].update(0, u.push(t.last())) =~= seq![t]);
    } else {
        assert(t =~= Seq::<char>::empty());
    }
}

/// Joining two paths with `/` joins their components: the components of
/// `a/b` are those of `a` followed by those of `b`.
pub proof fn lemma_segments_join(a: Seq<char>, b: Seq<char>)
    ensures
        segments(a + seq!['/'] + b) == segments(a) + segments(b),
    decreases b.len(),
{
    let x = a + seq!['/'] + b;
    if b.len() == 0 {
        assert(x.drop_last() =~= a);
        assert(segments(a).push(Seq::empty()) =~= segments(a) + seq![Seq::<char>::empty()]);
    } else {
        let b1 = b.drop_last();
        lemma_segments_join(a, b1);
        lemma_segments_nonempty(b1);
        lemma_segments_nonempty(a);
        assert(x.drop_last() =~= a + seq!['/'] + b1);
        assert(x.last() == b.last());
        let sa = segments(a);
        let sb = segments(b1);
        if b.last() == '/' {
            assert((sa + sb).push(Seq::empty()) =~= sa + sb.push(Seq::empty()));
        } else {
            let s = sa + sb;
            assert(s.update(s.len() - 1, s.last().push(b.last())) =~= sa + sb.update(
                sb.len() - 1,
                sb.last().push(b.last()),
            ));
        }
    }
}

/// Whether some `/`-separated component of `path` is `name`.
pub fn has_component(path: &str, name: &str) -> (b: bool)
    ensures
        b == segments(path@).contains(name@),
{
    let cs = chars_of(path);
    let target = chars_of(name);
    let mut current: Vec<char> = Vec::new();
    let mut found = false;
    let mut i: usize = 0;
    proof {
        assert(cs@.take(0) =~= Seq::<char>::empty());
    }
    while i < cs.len()
        invariant
            i <= cs@.len(),
            cs@ == path@,
            target@ == name@,
            segments(cs@.take(i as int)).len() > 0,
            current@ == segments(cs@.take(i as int)).last(),
            found == segments(cs@.take(i as int)).drop_last().contains(target@),
        decreases cs@.len() - i,
    {
        let c = cs[i];
        let ghost prefix = cs@.take(i as int);
        proof {
            assert(cs@.take(i + 1).drop_last() =~= prefix);
            lemma_segments_nonempty(prefix);
        }
        if c == '/' {
            let same = vec_eq(&current, &target);
            found = found || same;
            current = Vec::new();
            proof {
                let s = segments(prefix);
                assert(segments(cs@.take(i + 1)) == s.push(Seq::empty()));
                assert(s.push(Seq::empty()).drop_last() =~= s);
                assert(s =~= s.drop_last().push(s.last()));
                assert(current@ =~= Seq::<char>::empty());
            }
        } else {
            current.push(c);
            proof {
                let s = segments(prefix);
                let t = s.update(s.len() - 1, s.last().push(c));
                assert(segments(cs@.take(i + 1)) == t);
                assert(t.drop_last() =~= s.drop_last());
            }
        }
        i = i + 1;
    }
    let last_same = vec_eq(&current, &target);
    proof {
        assert(cs@.take(cs@.len() as int) =~= cs@);
        let s = segments(cs@);
        assert(s =~= s.drop_last().push(s.last()));
    }
    found || last_same
}

/// Whether two character vectors are equal.
pub fn vec_eq(a: &Vec<char>, b: &Vec<char>) -> (r: bool)
    ensures
        r == (a@ == b@),
{
    if a.len() != b.len() {
        return false;
    }
    let mut i: usize = 0;
    while i < a.len()
        invariant
            i <= a@.len(),
            a@.len() == b@.len(),
            forall|j: int| 0 <= j < i ==> a@[j] == b@[j],
        decreases a@.len() - i,
    {
        if a[i] != b[i] {
            return false;
        }
        i = i + 1;
    }
    assert(a@ =~= b@);
    true
}

// ---------------------------------------------------------------------------
// Containment
// ---------------------------------------------------------------------------

/// The non-empty pieces between `/` separators within the first `n`
/// characters of `s`, and the piece still open.
pub open spec fn part_scan(s: Seq<char>, n: int) -> (Seq<Seq<char>>, Seq<char>)
    decreases n,
{
    if n <= 0 {
        (Seq::empty(), Seq::empty())
    } else {
        let (done, cur) = part_scan(s, n - 1);
        if s[n - 1] == '/' {
            if cur.len() > 0 {
                (done.push(cur), Seq::empty())
            } else {
                (done, Seq::empty())
            }
        } else {
            (done, cur.push(s[n - 1]))
        }
    }
}

/// The names along a path: its non-empty pieces between `/` separators.
pub open spec fn parts(path: Seq<char>) -> Seq<Seq<char>> {
    let (done, cur) = part_scan(path, path.len() as int);
    if cur.len() > 0 {
        done.push(cur)
    } else {
        done
    }
}

/// Whether a path starts at the root.
pub open spec fn rooted(path: Seq<char>) -> bool {
    path.len() > 0 && path[0] == '/'
}

/// Whether `path` lies within `dir`, comparing whole names as
/// `Path::starts_with` does for paths without `.` components: both start at
/// the root or neither does, and the names of `dir` begin those of `path`.
pub open spec fn within(path: Seq<char>, dir: Seq<char>) -> bool {
    &&& rooted(path) == rooted(dir)
    &&& parts(dir).len() <= parts(path).len()
    &&& parts(path).take(parts(dir).len() as int) == parts(dir)
}

/// The texts of some character vectors.
pub open spec fn char_texts(v: Seq<Vec<char>>) -> Seq<Seq<char>> {
    v.map_values(|c: Vec<char>| c@)
}

/// The names along `path`.
pub fn path_parts(path: &str) -> (r: Vec<Vec<char>>)
    ensures
        char_texts(r@) == parts(path@),
{
    let cs = chars_of(path);
    let mut done: Vec<Vec<char>> = Vec::new();
    let mut cur: Vec<char> = Vec::new();
    let mut i: usize = 0;
    while i < cs.len()
        invariant
            cs@ == path@,
            i <= cs@.len(),
            char_texts(done@) == part_scan(cs@, i as int).0,
            cur@ == part_scan(cs@, i as int).1,
        decreases cs@.len() - i,
    {
        let c = cs[i];
        if c == '/' {
            if cur.len() > 0 {
                let ghost before = done@;
                let piece = cur;
                let ghost pv = piece@;
                done.push(piece);
                assert(char_texts(done@) =~= char_texts(before).push(pv));
            }
            cur = Vec::new();
        } else {
            cur.push(c);
        }
        i = i + 1;
    }
    if cur.len() > 0 {
        let ghost before = done@;
        let ghost pv = cur@;
        done.push(cur);
        assert(char_texts(done@) =~= char_texts(before).push(pv));
    }
    done
}

/// Whether `path` lies within `dir`.
pub fn starts_with_dir(path: &str, dir: &str) -> (b: bool)
    ensures
        b == within(path@, dir@),
{
    let p = chars_of(path);
    let d = chars_of(dir);
    let p_rooted = p.len() > 0 && p[0] == '/';
    let d_rooted = d.len() > 0 && d[0] == '/';
    if p_rooted != d_rooted {
        return false;
    }
    let pp = path_parts(path);
    let dp = path_parts(dir);
    if dp.len() > pp.len() {
        return false;
    }
    let mut i: usize = 0;
    while i < dp.len()
        invariant
            char_texts(pp@) == parts(path@),
            char_texts(dp@) == parts(dir@),
            dp@.len() <= pp@.len(),
            i <= dp@.len(),
            forall|j: int| 0 <= j < i ==> char_texts(pp@)[j] == char_texts(dp@)[j],
        decreases dp@.len() - i,
    {
        assert(char_texts(pp@)[i as int] == pp@[i as int]@);
        assert(char_texts(dp@)[i as int] == dp@[i as int]@);
        if !vec_eq(&pp[i], &dp[i]) {
            assert(char_texts(pp@).take(dp@.len() as int)[i as int] != char_texts(dp@)[i as int]);
            assert(parts(path@).take(parts(dir@).len() as int) != parts(dir@));
            return false;
        }
        i = i + 1;
    }
    assert(char_texts(pp@).take(dp@.len() as int) =~= char_texts(dp@));
    true
}

} // verus!
