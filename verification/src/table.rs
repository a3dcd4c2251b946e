//! A small association table with a mathematical map as its view.
//!
//! Rows live in a vector with pairwise distinct keys; look-ups scan. The
//! tables in this crate hold routes, users and cached entitlements, which are
//! read at connect and claim time only.
use vstd::prelude::*;

use crate::text;

verus! {

/// What a table needs of a key: comparison and duplication by view.
pub trait Key: View + Sized {
    /// True iff the two keys have the same view.
    fn same_key(&self, other: &Self) -> (r: bool)
        ensures
            r == (self@ == other@),
    ;

    /// A second key with the same view.
    fn dup_key(&self) -> (r: Self)
        ensures
            r@ == self@,
    ;
}

impl Key for String {
    fn same_key(&self, other: &Self) -> (r: bool) {
        text::same(self.as_str(), other.as_str())
    }

    fn dup_key(&self) -> (r: Self) {
        self.clone()
    }
}

impl Key for u16 {
    fn same_key(&self, other: &Self) -> (r: bool) {
        *self == *other
    }

    fn dup_key(&self) -> (r: Self) {
        *self
    }
}

impl Key for i64 {
    fn same_key(&self, other: &Self) -> (r: bool) {
        *self == *other
    }

    fn dup_key(&self) -> (r: Self) {
        *self
    }
}

impl Key for u64 {
    fn same_key(&self, other: &Self) -> (r: bool) {
        *self == *other
    }

    fn dup_key(&self) -> (r: Self) {
        *self
    }
}

/// Rows of distinct keys, each with a value.
pub struct Table<K: Key, T> {
    rows: Vec<(K, T)>,
}

/// `i` is the row of key `k`.
pub open spec fn row_of<K: Key, T>(rows: Seq<(K, T)>, k: K::V, i: int) -> bool {
    0 <= i < rows.len() && rows[i].0@ == k
}

impl<K: Key, T> View for Table<K, T> {
    type V = Map<K::V, T>;

    closed spec fn view(&self) -> Map<K::V, T> {
        Map::new(
            |k: K::V| exists|i: int| row_of(self.rows@, k, i),
            |k: K::V| self.rows@[choose|i: int| row_of(self.rows@, k, i)].1,
        )
    }
}

impl<K: Key, T> Table<K, T> {
    /// No key occurs in two rows.
    pub closed spec fn wf(&self) -> bool {
        forall|i: int, j: int|
            0 <= i < j < self.rows@.len() ==> (#[trigger] self.rows@[i]).0@ != (
            #[trigger] self.rows@[j]).0@
    }

    /// Number of rows.
    pub closed spec fn size(&self) -> nat {
        self.rows@.len()
    }

    proof fn lemma_row(&self, k: K::V, i: int)
        requires
            self.wf(),
            row_of(self.rows@, k, i),
        ensures
            self@.dom().contains(k),
            self@[k] == self.rows@[i].1,
    {
        let j = choose|j: int| row_of(self.rows@, k, j);
        assert(row_of(self.rows@, k, j));
        if i != j {
            if i < j {
                assert(self.rows@[i].0@ != self.rows@[j].0@);
            } else {
                assert(self.rows@[j].0@ != self.rows@[i].0@);
            }
        }
    }

    proof fn lemma_no_row(&self, k: K::V)
        requires
            forall|i: int| 0 <= i < self.rows@.len() ==> (#[trigger] self.rows@[i]).0@ != k,
        ensures
            !self@.dom().contains(k),
    {
        if self@.dom().contains(k) {
            let j = choose|j: int| row_of(self.rows@, k, j);
            assert(row_of(self.rows@, k, j));
        }
    }

    /// An empty table.
    pub fn new() -> (r: Self)
        ensures
            r.wf(),
            r@ == Map::<K::V, T>::empty(),
            r.size() == 0,
    {
        let r = Table { rows: Vec::new() };
        assert(r@ =~= Map::<K::V, T>::empty());
        r
    }

    /// Row of `k`, if it has one.
    fn find(&self, k: &K) -> (r: Option<usize>)
        requires
            self.wf(),
        ensures
            match r {
                Some(i) => row_of(self.rows@, k@, i as int) && self@.dom().contains(k@)
                    && self@[k@] == self.rows@[i as int].1,
                None => !self@.dom().contains(k@) && (forall|i: int|
                    0 <= i < self.rows@.len() ==> (#[trigger] self.rows@[i]).0@ != k@),
            },
    {
        let mut i: usize = 0;
        while i < self.rows.len()
            invariant
                i <= self.rows@.len(),
                self.wf(),
                forall|j: int| 0 <= j < i ==> (#[trigger] self.rows@[j]).0@ != k@,
            decreases self.rows@.len() - i,
        {
            if self.rows[i].0.same_key(k) {
                proof {
                    self.lemma_row(k@, i as int);
                }
                return Some(i);
            }
            i += 1;
        }
        proof {
            self.lemma_no_row(k@);
        }
        None
    }

    /// The value of `k`, if it has one.
    pub fn get(&self, k: &K) -> (r: Option<&T>)
        requires
            self.wf(),
        ensures
            match r {
                Some(v) => self@.dom().contains(k@) && *v == self@[k@],
                None => !self@.dom().contains(k@),
            },
    {
        match self.find(k) {
            Some(i) => Some(&self.rows[i].1),
            None => None,
        }
    }

    /// Sets the value of `k`, handing back the one it replaces.
    pub fn insert(&mut self, k: K, v: T) -> (r: Option<T>)
        requires
            old(self).wf(),
        ensures
            final(self).wf(),
            final(self)@ == old(self)@.insert(k@, v),
            r is Some <==> old(self)@.dom().contains(k@),
            r is Some ==> r->0 == old(self)@[k@],
            final(self).size() == old(self).size() + (if old(self)@.dom().contains(k@) {
                0nat
            } else {
                1nat
            }),
    {
        let ghost before = *self;
        let ghost key = k@;
        match self.find(&k) {
            Some(i) => {
                let prev = self.rows.remove(i);
                self.rows.insert(i, (k, v));
                proof {
                    assert forall|a: int, b: int| 0 <= a < b < self.rows@.len() implies (
                    #[trigger] self.rows@[a]).0@ != (#[trigger] self.rows@[b]).0@ by {
                        assert(before.rows@[a].0@ != before.rows@[b].0@);
                    }
                    self.lemma_row(key, i as int);
                    assert forall|x: K::V| self@.dom().contains(x) == before@.insert(
                        key,
                        v,
                    ).dom().contains(x) by {
                        if self@.dom().contains(x) {
                            let j = choose|j: int| row_of(self.rows@, x, j);
                            assert(row_of(before.rows@, x, j));
                        }
                        if before@.dom().contains(x) {
                            let j = choose|j: int| row_of(before.rows@, x, j);
                            assert(row_of(self.rows@, x, j));
                        }
                    }
                    assert forall|x: K::V| self@.dom().contains(x) implies self@[x]
                        == before@.insert(key, v)[x] by {
                        let j = choose|j: int| row_of(self.rows@, x, j);
                        self.lemma_row(x, j);
                        if x != key {
                            before.lemma_row(x, j);
                        }
                    }
                    assert(self@ =~= before@.insert(key, v));
                }
                Some(prev.1)
            },
            None => {
                self.rows.push((k, v));
                proof {
                    let n = self.rows@.len() - 1;
                    assert forall|a: int, b: int| 0 <= a < b < self.rows@.len() implies (
                    #[trigger] self.rows@[a]).0@ != (#[trigger] self.rows@[b]).0@ by {
                        assert(self.rows@[a] == before.rows@[a]);
                        if b < n {
                            assert(before.rows@[a].0@ != before.rows@[b].0@);
                        }
                    }
                    self.lemma_row(key, n);
                    assert forall|x: K::V| self@.dom().contains(x) == before@.insert(
                        key,
                        v,
                    ).dom().contains(x) by {
                        if self@.dom().contains(x) {
                            let j = choose|j: int| row_of(self.rows@, x, j);
                            if j < n {
                                assert(row_of(before.rows@, x, j));
                            }
                        }
                        if before@.dom().contains(x) {
                            let j = choose|j: int| row_of(before.rows@, x, j);
                            assert(row_of(self.rows@, x, j));
                        }
                    }
                    assert forall|x: K::V| self@.dom().contains(x) implies self@[x]
                        == before@.insert(key, v)[x] by {
                        let j = choose|j: int| row_of(self.rows@, x, j);
                        self.lemma_row(x, j);
                        if j < n {
                            before.lemma_row(x, j);
                        }
                    }
                    assert(self@ =~= before@.insert(key, v));
                }
                None
            },
        }
    }

    /// Drops the row of `k`, handing back its value.
    pub fn remove(&mut self, k: &K) -> (r: Option<T>)
        requires
            old(self).wf(),
        ensures
            final(self).wf(),
            final(self)@ == old(self)@.remove(k@),
            r is Some <==> old(self)@.dom().contains(k@),
            r is Some ==> r->0 == old(self)@[k@],
    {
        let ghost before = *self;
        match self.find(k) {
            Some(i) => {
                let row = self.rows.remove(i);
                proof {
                    let gap = i as int;
                    assert forall|a: int| 0 <= a < self.rows@.len() implies #[trigger] self.rows@[a]
                        == before.rows@[if a < gap {
                        a
                    } else {
                        a + 1
                    }] by {}
                    assert forall|a: int, b: int| 0 <= a < b < self.rows@.len() implies (
                    #[trigger] self.rows@[a]).0@ != (#[trigger] self.rows@[b]).0@ by {
                        let a2 = if a < gap {
                            a
                        } else {
                            a + 1
                        };
                        let b2 = if b < gap {
                            b
                        } else {
                            b + 1
                        };
                        assert(before.rows@[a2].0@ != before.rows@[b2].0@);
                    }
                    assert forall|x: K::V| self@.dom().contains(x) == before@.remove(
                        k@,
                    ).dom().contains(x) by {
                        if self@.dom().contains(x) {
                            let j = choose|j: int| row_of(self.rows@, x, j);
                            let j2 = if j < gap {
                                j
                            } else {
                                j + 1
                            };
                            assert(row_of(before.rows@, x, j2));
                            if j2 < gap {
                                assert(before.rows@[j2].0@ != before.rows@[gap].0@);
                            } else {
                                assert(before.rows@[gap].0@ != before.rows@[j2].0@);
                            }
                        }
                        if before@.dom().contains(x) && x != k@ {
                            let j = choose|j: int| row_of(before.rows@, x, j);
                            assert(j != gap);
                            let j2 = if j < gap {
                                j
                            } else {
                                j - 1
                            };
                            assert(row_of(self.rows@, x, j2));
                        }
                    }
                    assert forall|x: K::V| self@.dom().contains(x) implies self@[x]
                        == before@.remove(k@)[x] by {
                        let j = choose|j: int| row_of(self.rows@, x, j);
                        self.lemma_row(x, j);
                        before.lemma_row(
                            x,
                            if j < gap {
                                j
                            } else {
                                j + 1
                            },
                        );
                    }
                    assert(self@ =~= before@.remove(k@));
                }
                Some(row.1)
            },
            None => {
                assert(self@ =~= before@.remove(k@));
                None
            },
        }
    }

    /// Number of rows, which is the number of keys.
    pub fn len(&self) -> (r: usize)
        requires
            self.wf(),
        ensures
            r == self.size(),
    {
        self.rows.len()
    }

    /// The number of rows is the cardinality of the map.
    pub proof fn lemma_size(&self)
        requires
            self.wf(),
        ensures
            self@.dom().finite(),
            self@.dom().len() == self.size(),
    {
        let keys = Seq::new(self.rows@.len(), |i: int| self.rows@[i].0@);
        assert(keys.no_duplicates()) by {
            assert forall|i: int, j: int|
                0 <= i < keys.len() && 0 <= j < keys.len() && i != j implies keys[i]
                != keys[j] by {
                if i < j {
                    assert(self.rows@[i].0@ != self.rows@[j].0@);
                } else {
                    assert(self.rows@[j].0@ != self.rows@[i].0@);
                }
            }
        }
        keys.unique_seq_to_set();
        assert(keys.to_set() =~= self@.dom()) by {
            assert forall|x: K::V| keys.to_set().contains(x) == self@.dom().contains(x) by {
                if keys.contains(x) {
                    let i = choose|i: int| 0 <= i < keys.len() && keys[i] == x;
                    self.lemma_row(x, i);
                }
                if self@.dom().contains(x) {
                    let i = choose|i: int| row_of(self.rows@, x, i);
                    assert(keys[i] == x);
                }
            }
        }
        vstd::seq_lib::seq_to_set_is_finite(keys);
    }

    /// The key of row `i`.
    pub fn key_at(&self, i: usize) -> (r: &K)
        requires
            self.wf(),
            i < self.size(),
        ensures
            self@.dom().contains(r@),
            r@ == self.key_view(i as int),
    {
        proof {
            self.lemma_row(self.rows@[i as int].0@, i as int);
        }
        &self.rows[i].0
    }

    /// View of the key of row `i`.
    pub closed spec fn key_view(&self, i: int) -> K::V {
        self.rows@[i].0@
    }

    /// Every key stands in exactly one row.
    pub proof fn lemma_keys(&self)
        requires
            self.wf(),
        ensures
            forall|k: K::V| #[trigger]
                self@.dom().contains(k) ==> exists|i: int|
                    0 <= i < self.size() && self.key_view(i) == k,
            forall|i: int|
                0 <= i < self.size() ==> self@.dom().contains(#[trigger] self.key_view(i)),
            forall|i: int, j: int|
                0 <= i < self.size() && 0 <= j < self.size() && #[trigger] self.key_view(i)
                    == #[trigger] self.key_view(j) ==> i == j,
    {
        assert forall|k: K::V| #[trigger] self@.dom().contains(k) implies exists|i: int|
            0 <= i < self.size() && self.key_view(i) == k by {
            let j = choose|j: int| row_of(self.rows@, k, j);
            assert(self.key_view(j) == k);
        }
        assert forall|i: int| 0 <= i < self.size() implies self@.dom().contains(
            #[trigger] self.key_view(i),
        ) by {
            self.lemma_row(self.rows@[i].0@, i);
        }
        assert forall|i: int, j: int|
            0 <= i < self.size() && 0 <= j < self.size() && #[trigger] self.key_view(i)
                == #[trigger] self.key_view(j) implies i == j by {
            if i < j {
                assert(self.rows@[i].0@ != self.rows@[j].0@);
            } else if j < i {
                assert(self.rows@[j].0@ != self.rows@[i].0@);
            }
        }
    }
}

} // verus!
