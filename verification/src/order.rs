//! Orders and a stable insertion sort over the views of its elements.
use vstd::prelude::*;

use crate::text::chars_of;

verus! {

/// Code-point order of strings, a prefix before its extensions.
pub open spec fn lex_le(a: Seq<char>, b: Seq<char>) -> bool
    decreases a.len(),
{
    if a.len() == 0 {
        true
    } else if b.len() == 0 {
        false
    } else if a[0] != b[0] {
        a[0] < b[0]
    } else {
        lex_le(a.drop_first(), b.drop_first())
    }
}

pub proof fn lemma_lex_total(a: Seq<char>, b: Seq<char>)
    ensures
        lex_le(a, b) || lex_le(b, a),
    decreases a.len(),
{
    if a.len() > 0 && b.len() > 0 && a[0] == b[0] {
        lemma_lex_total(a.drop_first(), b.drop_first());
    }
}

pub proof fn lemma_lex_trans(a: Seq<char>, b: Seq<char>, c: Seq<char>)
    requires
        lex_le(a, b),
        lex_le(b, c),
    ensures
        lex_le(a, c),
    decreases a.len(),
{
    if a.len() > 0 && b.len() > 0 && c.len() > 0 && a[0] == b[0] && b[0] == c[0] {
        lemma_lex_trans(a.drop_first(), b.drop_first(), c.drop_first());
    }
}

pub proof fn lemma_lex_antisymmetric(a: Seq<char>, b: Seq<char>)
    requires
        lex_le(a, b),
        lex_le(b, a),
    ensures
        a == b,
    decreases a.len(),
{
    if a.len() > 0 && b.len() > 0 {
        lemma_lex_antisymmetric(a.drop_first(), b.drop_first());
        assert(a =~= seq![a[0]] + a.drop_first());
        assert(b =~= seq![b[0]] + b.drop_first());
    } else {
        assert(a =~= b);
    }
}

/// Code-point order of two strings.
pub fn str_le(a: &str, b: &str) -> (r: bool)
    ensures
        r == lex_le(a@, b@),
{
    let x = chars_of(a);
    let y = chars_of(b);
    let mut i: usize = 0;
    assert(x@.skip(0) =~= x@);
    assert(y@.skip(0) =~= y@);
    while i < x.len() && i < y.len() && x[i] == y[i]
        invariant
            i <= x@.len(),
            i <= y@.len(),
            x@ == a@,
            y@ == b@,
            lex_le(a@, b@) == lex_le(x@.skip(i as int), y@.skip(i as int)),
        decreases x@.len() - i,
    {
        assert(x@.skip(i as int).drop_first() =~= x@.skip(i + 1));
        assert(y@.skip(i as int).drop_first() =~= y@.skip(i + 1));
        i += 1;
    }
    if i >= x.len() {
        true
    } else if i >= y.len() {
        false
    } else {
        x[i] < y[i]
    }
}

/// An element with a total preorder on its view.
pub trait Ordered: View + Sized {
    spec fn le(a: Self::V, b: Self::V) -> bool;

    proof fn lemma_total(a: Self::V, b: Self::V)
        ensures
            Self::le(a, b) || Self::le(b, a),
    ;

    proof fn lemma_trans(a: Self::V, b: Self::V, c: Self::V)
        requires
            Self::le(a, b),
            Self::le(b, c),
        ensures
            Self::le(a, c),
    ;

    fn is_le(&self, other: &Self) -> (r: bool)
        ensures
            r == Self::le(self@, other@),
    ;
}

/// The views of a sequence.
pub open spec fn views<T: View>(s: Seq<T>) -> Seq<T::V> {
    s.map_values(|x: T| x@)
}

/// Every element comes before or equal to each later one.
pub open spec fn ascending<T: Ordered>(s: Seq<T::V>) -> bool {
    forall|i: int, j: int| 0 <= i < j < s.len() ==> T::le(#[trigger] s[i], #[trigger] s[j])
}

/// The elements of `v` in ascending order.
pub fn sort<T: Ordered>(v: Vec<T>) -> (r: Vec<T>)
    ensures
        views(r@).to_multiset() == views(v@).to_multiset(),
        r@.len() == v@.len(),
        ascending::<T>(views(r@)),
{
    let ghost all = views(v@).to_multiset();
    let ghost n = v@.len();
    let mut src = v;
    let mut out: Vec<T> = Vec::new();
    proof {
        broadcast use vstd::seq_lib::group_to_multiset_ensures;
        assert(views(out@) =~= Seq::<T::V>::empty());
        assert(views(out@).to_multiset() =~= vstd::multiset::Multiset::empty());
    }
    while src.len() > 0
        invariant
            views(src@).to_multiset().add(views(out@).to_multiset()) == all,
            src@.len() + out@.len() == n,
            ascending::<T>(views(out@)),
        decreases src@.len(),
    {
        let ghost s0 = src@;
        let ghost o0 = out@;
        let x = src.pop().unwrap();
        let ghost xv = x@;
        let mut k: usize = 0;
        while k < out.len() && out[k].is_le(&x)
            invariant
                k <= out@.len(),
                x@ == xv,
                out@ == o0,
                forall|j: int| 0 <= j < k ==> T::le(#[trigger] views(out@)[j], xv),
            decreases out@.len() - k,
        {
            assert(views(out@)[k as int] == out@[k as int]@);
            k += 1;
        }
        out.insert(k, x);
        proof {
            broadcast use vstd::seq_lib::group_to_multiset_ensures;
            assert(views(s0) =~= views(src@).push(xv));
            assert(views(out@) =~= views(o0).insert(k as int, xv));
            vstd::seq_lib::to_multiset_insert(views(o0), k as int, xv);
            assert(views(src@).to_multiset().add(views(out@).to_multiset()) =~= all);
            assert forall|i: int, j: int| 0 <= i < j < views(out@).len() implies T::le(
                #[trigger] views(out@)[i],
                #[trigger] views(out@)[j],
            ) by {
                let o = views(o0);
                if j == k {
                } else if i == k {
                    assert(views(out@)[j] == o[j - 1]);
                    assert(!T::le(o[k as int], xv));
                    T::lemma_total(xv, o[k as int]);
                    if k < j - 1 {
                        assert(T::le(o[k as int], o[j - 1]));
                        T::lemma_trans(xv, o[k as int], o[j - 1]);
                    }
                } else {
                    let i2 = if i < k {
                        i
                    } else {
                        i - 1
                    };
                    let j2 = if j < k {
                        j
                    } else {
                        j - 1
                    };
                    assert(T::le(o[i2], o[j2]));
                }
            }
        }
    }
    proof {
        broadcast use vstd::seq_lib::group_to_multiset_ensures;
        assert(views(src@) =~= Seq::<T::V>::empty());
        assert(views(src@).to_multiset() =~= vstd::multiset::Multiset::empty());
        assert(views(out@).to_multiset() =~= all);
    }
    out
}

/// The first place where two texts differ decides their order.
pub proof fn first_difference_decides(a: Seq<char>, b: Seq<char>, i: int)
    requires
        0 <= i < a.len(),
        i < b.len(),
        a.take(i) == b.take(i),
        a[i] < b[i],
    ensures
        lex_le(a, b),
        !lex_le(b, a),
    decreases i,
{
    if i > 0 {
        assert(a.take(i)[0] == a[0]);
        assert(b.take(i)[0] == b[0]);
        assert(a.drop_first().take(i - 1) =~= a.take(i).drop_first());
        assert(b.drop_first().take(i - 1) =~= b.take(i).drop_first());
        first_difference_decides(a.drop_first(), b.drop_first(), i - 1);
    }
}

/// A text stands before every text that goes on from it.
pub proof fn prefix_comes_first(a: Seq<char>, rest: Seq<char>)
    ensures
        lex_le(a, a + rest),
        rest.len() > 0 ==> !lex_le(a + rest, a),
    decreases a.len(),
{
    if a.len() > 0 {
        prefix_comes_first(a.drop_first(), rest);
        assert((a + rest).drop_first() =~= a.drop_first() + rest);
    }
}

} // verus!
