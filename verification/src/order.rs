//! Orders: the lexicographic order of strings and a sort for any type with
//! a strict weak order.

use vstd::prelude::*;
use vstd::multiset::Multiset;
use vstd::seq_lib::*;

verus! {

broadcast use vstd::seq_lib::group_to_multiset_ensures;

// ---------------------------------------------------------------------------
// Lexicographic order of strings
// ---------------------------------------------------------------------------

/// `a` comes before `b` in lexicographic order of code points (the byte
/// order of their UTF-8 encodings).
pub open spec fn text_before(a: Seq<char>, b: Seq<char>) -> bool
    decreases a.len(),
{
    if b.len() == 0 {
        false
    } else if a.len() == 0 {
        true
    } else if a[0] != b[0] {
        (a[0] as int) < (b[0] as int)
    } else {
        text_before(a.drop_first(), b.drop_first())
    }
}

/// Whether `a` is a proper prefix of `b`.
pub open spec fn proper_prefix(a: Seq<char>, b: Seq<char>) -> bool {
    a.len() < b.len() && a == b.take(a.len() as int)
}

/// Whether `a` and `b` first differ at position `k`, where `a` has the
/// smaller character.
pub open spec fn first_difference_smaller(a: Seq<char>, b: Seq<char>, k: int) -> bool {
    0 <= k < a.len() && k < b.len() && a.take(k) == b.take(k) && (a[k] as int) < (b[k] as int)
}

/// What the order means: `a` comes before `b` exactly when `a` is a proper
/// prefix of `b`, or at the first position where they differ `a` has the
/// smaller character.
pub proof fn lemma_text_before_meaning(a: Seq<char>, b: Seq<char>)
    ensures
        text_before(a, b) <==> (proper_prefix(a, b) || exists|k: int|
            #[trigger] first_difference_smaller(a, b, k)),
    decreases a.len(),
{
    if b.len() == 0 {
    } else if a.len() == 0 {
        assert(a =~= b.take(0));
    } else if a[0] != b[0] {
        if (a[0] as int) < (b[0] as int) {
            assert(a.take(0) =~= b.take(0));
            assert(first_difference_smaller(a, b, 0));
        }
        if proper_prefix(a, b) {
            assert(b.take(a.len() as int)[0] == b[0]);
        }
        if exists|k: int| #[trigger] first_difference_smaller(a, b, k) {
            let k = choose|k: int| #[trigger] first_difference_smaller(a, b, k);
            if k > 0 {
                assert(a.take(k)[0] == a[0]);
                assert(b.take(k)[0] == b[0]);
            }
        }
    } else {
        let a1 = a.drop_first();
        let b1 = b.drop_first();
        lemma_text_before_meaning(a1, b1);
        if proper_prefix(a, b) {
            assert(a1 =~= b1.take(a1.len() as int)) by {
                assert forall|i: int| 0 <= i < a1.len() implies #[trigger] a1[i] == b1.take(a1.len() as int)[i] by {
                    assert(a[i + 1] == b.take(a.len() as int)[i + 1]);
                }
            }
        }
        if proper_prefix(a1, b1) {
            assert(a =~= b.take(a.len() as int)) by {
                assert forall|i: int| 0 <= i < a.len() implies #[trigger] a[i] == b.take(a.len() as int)[i] by {
                    if i > 0 {
                        assert(a1[i - 1] == b1.take(a1.len() as int)[i - 1]);
                    }
                }
            }
        }
        if exists|k: int| #[trigger] first_difference_smaller(a, b, k) {
            let k = choose|k: int| #[trigger] first_difference_smaller(a, b, k);
            assert(k > 0);
            assert(a1.take(k - 1) =~= b1.take(k - 1)) by {
                assert forall|i: int| 0 <= i < k - 1 implies #[trigger] a1.take(k - 1)[i] == b1.take(k - 1)[i] by {
                    assert(a.take(k)[i + 1] == b.take(k)[i + 1]);
                }
            }
            assert(first_difference_smaller(a1, b1, k - 1));
        }
        if exists|k: int| #[trigger] first_difference_smaller(a1, b1, k) {
            let k = choose|k: int| #[trigger] first_difference_smaller(a1, b1, k);
            assert(a.take(k + 1) =~= b.take(k + 1)) by {
                assert forall|i: int| 0 <= i < k + 1 implies #[trigger] a.take(k + 1)[i] == b.take(k + 1)[i] by {
                    if i > 0 {
                        assert(a1.take(k)[i - 1] == b1.take(k)[i - 1]);
                    }
                }
            }
            assert(first_difference_smaller(a, b, k + 1));
        }
    }
}

/// No text comes before itself.
pub proof fn lemma_text_before_irreflexive(a: Seq<char>)
    ensures
        !text_before(a, a),
    decreases a.len(),
{
    if a.len() > 0 {
        lemma_text_before_irreflexive(a.drop_first());
    }
}

/// The order is asymmetric.
pub proof fn lemma_text_before_asymmetric(a: Seq<char>, b: Seq<char>)
    ensures
        text_before(a, b) ==> !text_before(b, a),
    decreases a.len(),
{
    if a.len() > 0 && b.len() > 0 && a[0] == b[0] {
        lemma_text_before_asymmetric(a.drop_first(), b.drop_first());
    }
}

/// The order is transitive.
pub proof fn lemma_text_before_transitive(a: Seq<char>, b: Seq<char>, c: Seq<char>)
    requires
        text_before(a, b),
        text_before(b, c),
    ensures
        text_before(a, c),
    decreases a.len(),
{
    if a.len() > 0 && b.len() > 0 && c.len() > 0 && a[0] == b[0] && b[0] == c[0] {
        lemma_text_before_transitive(a.drop_first(), b.drop_first(), c.drop_first());
    }
}

/// Two different texts are ordered one way or the other.
pub proof fn lemma_text_before_total(a: Seq<char>, b: Seq<char>)
    ensures
        a == b || text_before(a, b) || text_before(b, a),
    decreases a.len(),
{
    if a.len() > 0 && b.len() > 0 && a[0] == b[0] {
        lemma_text_before_total(a.drop_first(), b.drop_first());
        if a.drop_first() == b.drop_first() {
            assert(a =~= seq![a[0]] + a.drop_first());
            assert(b =~= seq![b[0]] + b.drop_first());
        }
    } else if a.len() == 0 && b.len() == 0 {
        assert(a =~= b);
    }
}

/// "Not after" is transitive.
pub proof fn lemma_text_not_after_transitive(a: Seq<char>, b: Seq<char>, c: Seq<char>)
    requires
        !text_before(b, a),
        !text_before(c, b),
    ensures
        !text_before(c, a),
{
    lemma_text_before_total(a, b);
    lemma_text_before_total(b, c);
    if text_before(c, a) {
        if a == b {
        } else if b == c {
        } else {
            lemma_text_before_transitive(c, a, b);
        }
    }
}

/// Whether the text `a` comes before the text `b`.
pub fn chars_before(a: &[char], b: &[char]) -> (r: bool)
    ensures
        r == text_before(a@, b@),
{
    let mut i: usize = 0;
    assert(a@.skip(0) =~= a@);
    assert(b@.skip(0) =~= b@);
    while i < a.len() && i < b.len()
        invariant
            i <= a@.len(),
            i <= b@.len(),
            text_before(a@, b@) == text_before(a@.skip(i as int), b@.skip(i as int)),
        decreases a@.len() - i,
    {
        let x = a[i];
        let y = b[i];
        if x != y {
            return x < y;
        }
        assert(a@.skip(i as int).drop_first() =~= a@.skip(i + 1));
        assert(b@.skip(i as int).drop_first() =~= b@.skip(i + 1));
        i = i + 1;
    }
    i < b.len()
}

// ---------------------------------------------------------------------------
// Sorting
// ---------------------------------------------------------------------------

/// A strict weak order on a type, and its executable test.
pub trait KeyOrder: Sized {
    /// `a` sorts strictly before `b`.
    spec fn before(a: Self, b: Self) -> bool;

    /// Nothing sorts before something that sorts before it.
    proof fn lemma_before_asymmetric(a: Self, b: Self)
        ensures
            Self::before(a, b) ==> !Self::before(b, a),
    ;

    /// "Not after" is transitive.
    proof fn lemma_not_after_transitive(a: Self, b: Self, c: Self)
        requires
            !Self::before(b, a),
            !Self::before(c, b),
        ensures
            !Self::before(c, a),
    ;

    /// Whether `self` sorts strictly before `other`.
    fn sorts_before(&self, other: &Self) -> (r: bool)
        ensures
            r == Self::before(*self, *other),
    ;
}

/// No element of `s` sorts before an element to its left.
pub open spec fn sorted_by_key<T: KeyOrder>(s: Seq<T>) -> bool {
    forall|i: int, j: int| 0 <= i < j < s.len() ==> !T::before(#[trigger] s[j], #[trigger] s[i])
}

/// Sorts `v`: the result holds the same elements, none of them
/// before an element to its left.
pub fn sort_by_key<T: KeyOrder>(v: Vec<T>) -> (r: Vec<T>)
    ensures
        sorted_by_key(r@),
        r@.to_multiset() == v@.to_multiset(),
{
    let mut rest = v;
    let mut out: Vec<T> = Vec::new();
    while rest.len() > 0
        invariant
            sorted_by_key(out@),
            v@.to_multiset() == rest@.to_multiset().add(out@.to_multiset()),
        decreases rest@.len(),
    {
        let ghost before_pop = rest@;
        let x = rest.pop().unwrap();
        proof {
            assert(before_pop =~= rest@.push(x));
            to_multiset_build(rest@, x);
        }
        let mut pos: usize = 0;
        while pos < out.len() && out[pos].sorts_before(&x)
            invariant
                pos <= out@.len(),
                forall|k: int| 0 <= k < pos ==> T::before(#[trigger] out@[k], x),
            decreases out@.len() - pos,
        {
            pos = pos + 1;
        }
        let ghost old_out = out@;
        out.insert(pos, x);
        proof {
            to_multiset_insert(old_out, pos as int, x);
            assert forall|i: int, j: int| 0 <= i < j < out@.len() implies !T::before(
                #[trigger] out@[j],
                #[trigger] out@[i],
            ) by {
                if j < pos {
                    assert(out@[i] == old_out[i] && out@[j] == old_out[j]);
                } else if i > pos {
                    assert(out@[i] == old_out[i - 1] && out@[j] == old_out[j - 1]);
                } else if i == pos {
                    // x against a later element
                    assert(out@[j] == old_out[j - 1]);
                    assert(!T::before(old_out[pos as int], x));
                    if j - 1 > pos {
                        T::lemma_not_after_transitive(x, old_out[pos as int], old_out[j - 1]);
                    }
                } else if j == pos {
                    // an earlier element against x
                    assert(out@[i] == old_out[i]);
                    T::lemma_before_asymmetric(old_out[i], x);
                } else {
                    // i < pos < j
                    assert(out@[i] == old_out[i] && out@[j] == old_out[j - 1]);
                }
            }
            assert(v@.to_multiset() =~= rest@.to_multiset().add(out@.to_multiset()));
        }
    }
    proof {
        assert(rest@.to_multiset() =~= Multiset::empty());
        assert(v@.to_multiset() =~= out@.to_multiset());
    }
    out
}

} // verus!
