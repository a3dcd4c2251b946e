//! The rows of the registry's tables and what holds between them.
use vstd::prelude::*;

use crate::order;
use crate::order::Ordered;
use crate::text;

verus! {

/// A registered account.
#[derive(Debug, Clone, PartialEq, Eq)]
pub struct UserRow {
    pub id: i64,
    pub name: String,
    pub created_at: i64,
}

/// A bearer token, kept only as its digest.
#[derive(Debug, Clone, PartialEq, Eq)]
pub struct TokenRec {
    pub id: i64,
    pub user_id: i64,
    pub token_hash: Vec<u8>,
    pub label: Option<String>,
    pub created_at: i64,
    pub revoked_at: Option<i64>,
}

/// An owned hostname label.
#[derive(Debug, Clone, PartialEq, Eq)]
pub struct HostRow {
    pub id: i64,
    pub user_id: i64,
    pub label: String,
    pub created_at: i64,
}

/// A reserved TCP port.
#[derive(Debug, Clone, PartialEq, Eq)]
pub struct PortRow {
    pub port: u16,
    pub user_id: i64,
    pub created_at: i64,
}

/// View of a [`UserRow`].
#[verifier::ext_equal]
pub struct UserView {
    pub id: i64,
    pub name: Seq<char>,
    pub created_at: i64,
}

/// View of a [`TokenRec`].
#[verifier::ext_equal]
pub struct TokenView {
    pub id: i64,
    pub user_id: i64,
    pub hash: Seq<u8>,
    pub label: Option<Seq<char>>,
    pub created_at: i64,
    pub revoked_at: Option<i64>,
}

/// View of a [`HostRow`].
#[verifier::ext_equal]
pub struct HostView {
    pub id: i64,
    pub user_id: i64,
    pub label: Seq<char>,
    pub created_at: i64,
}

/// View of a [`PortRow`].
#[verifier::ext_equal]
pub struct PortView {
    pub port: u16,
    pub user_id: i64,
    pub created_at: i64,
}

/// View of an optional string.
pub open spec fn opt_view(o: Option<String>) -> Option<Seq<char>> {
    match o {
        Some(s) => Some(s@),
        None => None,
    }
}

impl View for UserRow {
    type V = UserView;

    open spec fn view(&self) -> UserView {
        UserView { id: self.id, name: self.name@, created_at: self.created_at }
    }
}

impl View for TokenRec {
    type V = TokenView;

    open spec fn view(&self) -> TokenView {
        TokenView {
            id: self.id,
            user_id: self.user_id,
            hash: self.token_hash@,
            label: opt_view(self.label),
            created_at: self.created_at,
            revoked_at: self.revoked_at,
        }
    }
}

impl View for HostRow {
    type V = HostView;

    open spec fn view(&self) -> HostView {
        HostView {
            id: self.id,
            user_id: self.user_id,
            label: self.label@,
            created_at: self.created_at,
        }
    }
}

impl View for PortRow {
    type V = PortView;

    open spec fn view(&self) -> PortView {
        PortView { port: self.port, user_id: self.user_id, created_at: self.created_at }
    }
}

/// A row that belongs to a user, with what keeps two rows of a table apart.
pub trait Row: View + Sized {
    /// What holds of an earlier and a later row of one table.
    spec fn apart(a: Self::V, b: Self::V) -> bool;

    /// The user the row belongs to.
    spec fn owner(v: Self::V) -> i64;

    fn owner_id(&self) -> (r: i64)
        ensures
            r == Self::owner(self@),
    ;

    fn is_apart(&self, later: &Self) -> (r: bool)
        ensures
            r == Self::apart(self@, later@),
    ;
}

impl Row for UserRow {
    open spec fn apart(a: UserView, b: UserView) -> bool {
        a.id < b.id && a.name != b.name
    }

    open spec fn owner(v: UserView) -> i64 {
        v.id
    }

    fn owner_id(&self) -> (r: i64) {
        self.id
    }

    fn is_apart(&self, later: &Self) -> (r: bool) {
        self.id < later.id && !text::same(self.name.as_str(), later.name.as_str())
    }
}

impl Row for TokenRec {
    open spec fn apart(a: TokenView, b: TokenView) -> bool {
        a.id < b.id && a.hash != b.hash
    }

    open spec fn owner(v: TokenView) -> i64 {
        v.user_id
    }

    fn owner_id(&self) -> (r: i64) {
        self.user_id
    }

    fn is_apart(&self, later: &Self) -> (r: bool) {
        self.id < later.id && !same_bytes(&self.token_hash, &later.token_hash)
    }
}

impl Row for HostRow {
    open spec fn apart(a: HostView, b: HostView) -> bool {
        a.id < b.id && a.label != b.label
    }

    open spec fn owner(v: HostView) -> i64 {
        v.user_id
    }

    fn owner_id(&self) -> (r: i64) {
        self.user_id
    }

    fn is_apart(&self, later: &Self) -> (r: bool) {
        self.id < later.id && !text::same(self.label.as_str(), later.label.as_str())
    }
}

impl Row for PortRow {
    open spec fn apart(a: PortView, b: PortView) -> bool {
        a.port < b.port
    }

    open spec fn owner(v: PortView) -> i64 {
        v.user_id
    }

    fn owner_id(&self) -> (r: i64) {
        self.user_id
    }

    fn is_apart(&self, later: &Self) -> (r: bool) {
        self.port < later.port
    }
}

/// True iff the two byte strings are equal.
pub fn same_bytes(a: &Vec<u8>, b: &Vec<u8>) -> (r: bool)
    ensures
        r == (a@ == b@),
{
    if a.len() != b.len() {
        return false;
    }
    let mut i: usize = 0;
    while i < a.len()
        invariant
            i <= a@.len(),
            a@.len() == b@.len(),
            forall|j: int| 0 <= j < i ==> a@[j] == b@[j],
        decreases a@.len() - i,
    {
        if a[i] != b[i] {
            return false;
        }
        i += 1;
    }
    assert(a@ =~= b@);
    true
}

/// A copy of a byte string.
pub fn dup_bytes(a: &Vec<u8>) -> (r: Vec<u8>)
    ensures
        r@ == a@,
{
    let mut out: Vec<u8> = Vec::new();
    let mut i: usize = 0;
    while i < a.len()
        invariant
            i <= a@.len(),
            out@ == a@.take(i as int),
        decreases a@.len() - i,
    {
        out.push(a[i]);
        i += 1;
        assert(out@ =~= a@.take(i as int));
    }
    assert(a@.take(i as int) =~= a@);
    out
}

/// Every two rows of a table are apart.
pub open spec fn pairwise<T: Row>(s: Seq<T::V>) -> bool {
    forall|i: int, j: int| 0 <= i < j < s.len() ==> T::apart(#[trigger] s[i], #[trigger] s[j])
}

/// The rows of one user, as a predicate.
pub open spec fn owned_by<T: Row>(user: i64) -> spec_fn(T::V) -> bool {
    |v: T::V| T::owner(v) == user
}

/// The rows of everyone else, as a predicate.
pub open spec fn not_owned_by<T: Row>(user: i64) -> spec_fn(T::V) -> bool {
    |v: T::V| T::owner(v) != user
}

/// Rows that belong to one user.
pub open spec fn of_user<T: Row>(s: Seq<T::V>, user: i64) -> Seq<T::V> {
    s.filter(owned_by::<T>(user))
}

/// Rows that belong to anyone else.
pub open spec fn not_of_user<T: Row>(s: Seq<T::V>, user: i64) -> Seq<T::V> {
    s.filter(not_owned_by::<T>(user))
}

/// Filtering one more element.
pub proof fn lemma_filter_step<A>(s: Seq<A>, p: spec_fn(A) -> bool, i: int)
    requires
        0 <= i < s.len(),
    ensures
        s.take(i + 1).filter(p) == (if p(s[i]) {
            s.take(i).filter(p).push(s[i])
        } else {
            s.take(i).filter(p)
        }),
{
    reveal(Seq::filter);
    assert(s.take(i + 1).drop_last() =~= s.take(i));
}

/// Filtering keeps the order: two positions of the result come from two
/// positions of the source in the same order.
pub proof fn lemma_filter_positions<A>(s: Seq<A>, p: spec_fn(A) -> bool, i: int, j: int)
    requires
        0 <= i < j < s.filter(p).len(),
    ensures
        exists|a: int, b: int|
            0 <= a < b < s.len() && #[trigger] s[a] == s.filter(p)[i] && #[trigger] s[b] == s.filter(
                p,
            )[j],
    decreases s.len(),
{
    reveal(Seq::filter);
    if s.len() > 0 {
        let t = s.drop_last();
        let f = t.filter(p);
        if j < f.len() {
            lemma_filter_positions(t, p, i, j);
            let (a, b) = choose|a: int, b: int|
                0 <= a < b < t.len() && #[trigger] t[a] == f[i] && #[trigger] t[b] == f[j];
            assert(s[a] == s.filter(p)[i] && s[b] == s.filter(p)[j]);
        } else {
            lemma_filter_source(t, p, i);
            let a = choose|a: int| 0 <= a < t.len() && t[a] == f[i];
            assert(s[a] == s.filter(p)[i] && s[s.len() - 1] == s.filter(p)[j]);
        }
    }
}

/// Each element of a filtered sequence is in the source.
pub proof fn lemma_filter_source<A>(s: Seq<A>, p: spec_fn(A) -> bool, i: int)
    requires
        0 <= i < s.filter(p).len(),
    ensures
        exists|a: int| 0 <= a < s.len() && s[a] == s.filter(p)[i],
        p(s.filter(p)[i]),
    decreases s.len(),
{
    reveal(Seq::filter);
    if s.len() > 0 {
        let t = s.drop_last();
        let f = t.filter(p);
        if i < f.len() {
            lemma_filter_source(t, p, i);
            let a = choose|a: int| 0 <= a < t.len() && t[a] == f[i];
            assert(s[a] == s.filter(p)[i]);
        } else {
            assert(s[s.len() - 1] == s.filter(p)[i]);
        }
    }
}

/// Filtering keeps rows apart.
pub proof fn lemma_pairwise_filter<T: Row>(s: Seq<T::V>, p: spec_fn(T::V) -> bool)
    requires
        pairwise::<T>(s),
    ensures
        pairwise::<T>(s.filter(p)),
{
    assert forall|i: int, j: int| 0 <= i < j < s.filter(p).len() implies T::apart(
        #[trigger] s.filter(p)[i],
        #[trigger] s.filter(p)[j],
    ) by {
        lemma_filter_positions(s, p, i, j);
        let (a, b) = choose|a: int, b: int|
            0 <= a < b < s.len() && #[trigger] s[a] == s.filter(p)[i] && #[trigger] s[b]
                == s.filter(p)[j];
        assert(T::apart(s[a], s[b]));
    }
}

/// A filter splits the length of a sequence in two.
pub proof fn lemma_filter_split<A>(s: Seq<A>, p: spec_fn(A) -> bool, q: spec_fn(A) -> bool)
    requires
        forall|x: A| #[trigger] p(x) == !q(x),
    ensures
        s.filter(p).len() + s.filter(q).len() == s.len(),
    decreases s.len(),
{
    reveal(Seq::filter);
    if s.len() > 0 {
        lemma_filter_split(s.drop_last(), p, q);
        let x = s.last();
        assert(p(x) == !q(x));
    }
}

/// A filter that no element passes leaves nothing.
pub proof fn lemma_filter_none<A>(s: Seq<A>, p: spec_fn(A) -> bool)
    requires
        forall|i: int| 0 <= i < s.len() ==> !p(#[trigger] s[i]),
    ensures
        s.filter(p) == Seq::<A>::empty(),
    decreases s.len(),
{
    reveal(Seq::filter);
    if s.len() > 0 {
        let t = s.drop_last();
        assert forall|i: int| 0 <= i < t.len() implies !p(#[trigger] t[i]) by {
            assert(t[i] == s[i]);
        }
        lemma_filter_none(t, p);
        assert(!p(s[s.len() - 1]));
    } else {
        assert(s =~= Seq::<A>::empty());
    }
}

/// A filter that every element passes changes nothing.
pub proof fn lemma_filter_all<A>(s: Seq<A>, p: spec_fn(A) -> bool)
    requires
        forall|i: int| 0 <= i < s.len() ==> p(#[trigger] s[i]),
    ensures
        s.filter(p) == s,
    decreases s.len(),
{
    reveal(Seq::filter);
    if s.len() > 0 {
        let t = s.drop_last();
        assert forall|i: int| 0 <= i < t.len() implies p(#[trigger] t[i]) by {
            assert(t[i] == s[i]);
        }
        lemma_filter_all(t, p);
        assert(p(s[s.len() - 1]));
        assert(t.push(s.last()) =~= s);
    }
}

/// Number of rows that belong to `user`.
pub fn count_owned<T: Row>(v: &Vec<T>, user: i64) -> (r: usize)
    ensures
        r == of_user::<T>(order::views(v@), user).len(),
{
    let ghost s = order::views(v@);
    let ghost p = owned_by::<T>(user);
    let mut n: usize = 0;
    let mut i: usize = 0;
    proof {
        reveal(Seq::filter);
        assert(s.take(0) =~= Seq::<T::V>::empty());
    }
    while i < v.len()
        invariant
            i <= v@.len(),
            s == order::views(v@),
            p == owned_by::<T>(user),
            n == s.take(i as int).filter(p).len(),
            n <= i,
        decreases v@.len() - i,
    {
        proof {
            lemma_filter_step(s, p, i as int);
        }
        if v[i].owner_id() == user {
            n += 1;
        }
        i += 1;
    }
    assert(s.take(i as int) =~= s);
    n
}

/// Keeps the rows that pass `f`, in order; `f` decides `p`.
pub(crate) fn keep_where<T: View>(
    v: &mut Vec<T>,
    f: impl Fn(&T) -> bool,
    Ghost(p): Ghost<spec_fn(T::V) -> bool>,
)
    requires
        forall|x: &T| #[trigger] f.requires((x,)),
        forall|x: &T, b: bool| #[trigger] f.ensures((x,), b) ==> b == p(x@),
    ensures
        order::views(final(v)@) == order::views(old(v)@).filter(p),
{
    let ghost s = order::views(v@);
    let ghost mut k: int = 0;
    let mut i: usize = 0;
    proof {
        reveal(Seq::filter);
        assert(s.take(0) =~= Seq::<T::V>::empty());
        assert(order::views(v@).take(0) =~= Seq::<T::V>::empty());
        assert(s.skip(0) =~= s);
        assert(order::views(v@).skip(0) =~= s);
    }
    while i < v.len()
        invariant
            i <= v@.len(),
            0 <= k <= s.len(),
            forall|x: &T| #[trigger] f.requires((x,)),
            forall|x: &T, b: bool| #[trigger] f.ensures((x,), b) ==> b == p(x@),
            order::views(v@).take(i as int) == s.take(k).filter(p),
            order::views(v@).skip(i as int) == s.skip(k),
        decreases v@.len() - i,
    {
        let ghost before = order::views(v@);
        proof {
            assert(before.skip(i as int)[0] == before[i as int]);
            assert(s.skip(k).len() == before.skip(i as int).len());
            assert(s.skip(k)[0] == s[k]);
            lemma_filter_step(s, p, k);
        }
        if f(&v[i]) {
            i += 1;
            proof {
                assert(before.take(i as int) =~= before.take(i - 1).push(before[i - 1]));
                assert(before.skip(i as int) =~= before.skip(i - 1).drop_first());
                assert(s.skip(k).drop_first() =~= s.skip(k + 1));
            }
        } else {
            let _ = v.remove(i);
            proof {
                assert(order::views(v@) =~= before.remove(i as int));
                assert(order::views(v@).take(i as int) =~= before.take(i as int));
                assert(order::views(v@).skip(i as int) =~= before.skip(i as int).drop_first());
                assert(s.skip(k).drop_first() =~= s.skip(k + 1));
            }
        }
        proof {
            k = k + 1;
        }
    }
    proof {
        assert(order::views(v@).take(i as int) =~= order::views(v@));
        assert(s.skip(k).len() == order::views(v@).skip(i as int).len());
        assert(s.take(k) =~= s);
    }
}

/// Drops every row of `user`, keeping the order of the rest.
pub fn drop_owned<T: Row>(v: &mut Vec<T>, user: i64)
    ensures
        order::views(final(v)@) == not_of_user::<T>(order::views(old(v)@), user),
{
    let other = |x: &T| -> (b: bool)
        ensures
            b == (T::owner(x@) != user),
    {
        let id: i64 = x.owner_id();
        id != user
    };
    keep_where(v, other, Ghost(not_owned_by::<T>(user)));
}

/// Checks that every two rows are apart.
pub fn check_pairwise<T: Row>(v: &Vec<T>) -> (r: bool)
    ensures
        r == pairwise::<T>(order::views(v@)),
{
    let ghost s = order::views(v@);
    let mut i: usize = 0;
    while i < v.len()
        invariant
            i <= v@.len(),
            s == order::views(v@),
            forall|a: int, b: int| 0 <= a < i && a < b < s.len() ==> T::apart(#[trigger] s[a], #[trigger] s[b]),
        decreases v@.len() - i,
    {
        let mut j: usize = i + 1;
        while j < v.len()
            invariant
                i < j <= v@.len(),
                s == order::views(v@),
                forall|b: int| i < b < j ==> T::apart(s[i as int], #[trigger] s[b]),
            decreases v@.len() - j,
        {
            if !v[i].is_apart(&v[j]) {
                assert(!T::apart(s[i as int], s[j as int]));
                return false;
            }
            j += 1;
        }
        i += 1;
    }
    true
}

impl Ordered for (i64, String, i64) {
    open spec fn le(a: (i64, Seq<char>, i64), b: (i64, Seq<char>, i64)) -> bool {
        order::lex_le(a.1, b.1)
    }

    proof fn lemma_total(a: (i64, Seq<char>, i64), b: (i64, Seq<char>, i64)) {
        order::lemma_lex_total(a.1, b.1);
    }

    proof fn lemma_trans(
        a: (i64, Seq<char>, i64),
        b: (i64, Seq<char>, i64),
        c: (i64, Seq<char>, i64),
    ) {
        order::lemma_lex_trans(a.1, b.1, c.1);
    }

    fn is_le(&self, other: &Self) -> (r: bool) {
        order::str_le(self.1.as_str(), other.1.as_str())
    }
}

/// Order of pairs of strings: by the first, then by the second.
pub open spec fn pair_le(a: (Seq<char>, Seq<char>), b: (Seq<char>, Seq<char>)) -> bool {
    if a.0 != b.0 {
        order::lex_le(a.0, b.0)
    } else {
        order::lex_le(a.1, b.1)
    }
}

/// Order of pairs as a relation.
pub open spec fn pair_order() -> spec_fn((Seq<char>, Seq<char>), (Seq<char>, Seq<char>)) -> bool {
    |a: (Seq<char>, Seq<char>), b: (Seq<char>, Seq<char>)| pair_le(a, b)
}

/// The order of pairs is total.
pub proof fn lemma_pair_order_total()
    ensures
        vstd::relations::total_ordering(pair_order()),
{
    let r = pair_order();
    assert forall|a: (Seq<char>, Seq<char>)| #[trigger] r(a, a) by {
        order::lemma_lex_total(a.1, a.1);
    }
    assert forall|a: (Seq<char>, Seq<char>), b: (Seq<char>, Seq<char>)| #[trigger]
        r(a, b) && #[trigger] r(b, a) implies a == b by {
        if a.0 != b.0 {
            order::lemma_lex_antisymmetric(a.0, b.0);
        } else {
            order::lemma_lex_antisymmetric(a.1, b.1);
        }
    }
    assert forall|a: (Seq<char>, Seq<char>), b: (Seq<char>, Seq<char>), c: (Seq<char>, Seq<char>)|
        #[trigger]
        r(a, b) && #[trigger] r(b, c) implies r(a, c) by {
        lemma_pair_trans(a, b, c);
    }
    assert forall|a: (Seq<char>, Seq<char>), b: (Seq<char>, Seq<char>)| #[trigger]
        r(a, b) || #[trigger] r(b, a) by {
        order::lemma_lex_total(a.0, b.0);
        order::lemma_lex_total(a.1, b.1);
    }
    assert(vstd::relations::strongly_connected(r));
}

proof fn lemma_pair_trans(
    a: (Seq<char>, Seq<char>),
    b: (Seq<char>, Seq<char>),
    c: (Seq<char>, Seq<char>),
)
    requires
        pair_le(a, b),
        pair_le(b, c),
    ensures
        pair_le(a, c),
{
    if a.0 == b.0 && b.0 == c.0 {
        order::lemma_lex_trans(a.1, b.1, c.1);
    } else if a.0 != b.0 && b.0 != c.0 {
        order::lemma_lex_trans(a.0, b.0, c.0);
        if a.0 == c.0 {
            order::lemma_lex_antisymmetric(a.0, b.0);
        }
    }
}

impl Ordered for (String, String) {
    open spec fn le(a: (Seq<char>, Seq<char>), b: (Seq<char>, Seq<char>)) -> bool {
        pair_le(a, b)
    }

    proof fn lemma_total(a: (Seq<char>, Seq<char>), b: (Seq<char>, Seq<char>)) {
        order::lemma_lex_total(a.0, b.0);
        order::lemma_lex_total(a.1, b.1);
    }

    proof fn lemma_trans(
        a: (Seq<char>, Seq<char>),
        b: (Seq<char>, Seq<char>),
        c: (Seq<char>, Seq<char>),
    ) {
        lemma_pair_trans(a, b, c);
    }

    fn is_le(&self, other: &Self) -> (r: bool) {
        if text::same(self.0.as_str(), other.0.as_str()) {
            order::str_le(self.1.as_str(), other.1.as_str())
        } else {
            order::str_le(self.0.as_str(), other.0.as_str())
        }
    }
}

/// The pairs of `v` in the order of pairs.
pub fn sort_pairs(v: Vec<(String, String)>) -> (r: Vec<(String, String)>)
    ensures
        order::views(r@) == order::views(v@).sort_by(pair_order()),
{
    let ghost before = order::views(v@);
    let r = order::sort(v);
    proof {
        lemma_pair_order_total();
        before.lemma_sort_by_ensures(pair_order());
        let le = pair_order();
        assert forall|i: int, j: int| 0 <= i < j < order::views(r@).len() implies #[trigger] le(
            order::views(r@)[i],
            order::views(r@)[j],
        ) by {}
        vstd::seq_lib::lemma_sorted_unique(order::views(r@), before.sort_by(le), le);
    }
    r
}

/// The place of one owned resource in the order of acquisition.
#[derive(Clone, Copy)]
pub struct Slot {
    pub created_at: i64,
    /// Row id of a hostname, or the port itself.
    pub key: i64,
    pub is_port: bool,
}

impl View for Slot {
    type V = Slot;

    open spec fn view(&self) -> Slot {
        *self
    }
}

/// Order of acquisition: creation time, then key, then hostnames before ports.
pub open spec fn slot_le(a: Slot, b: Slot) -> bool {
    if a.created_at != b.created_at {
        a.created_at < b.created_at
    } else if a.key != b.key {
        a.key < b.key
    } else {
        !a.is_port || b.is_port
    }
}

impl Ordered for Slot {
    open spec fn le(a: Slot, b: Slot) -> bool {
        slot_le(a, b)
    }

    proof fn lemma_total(a: Slot, b: Slot) {
    }

    proof fn lemma_trans(a: Slot, b: Slot, c: Slot) {
    }

    fn is_le(&self, other: &Self) -> (r: bool) {
        if self.created_at != other.created_at {
            self.created_at < other.created_at
        } else if self.key != other.key {
            self.key < other.key
        } else {
            !self.is_port || other.is_port
        }
    }
}

} // verus!
