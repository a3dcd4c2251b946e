//! The routing table: which session currently serves each hostname and port.
//!
//! A claim is "newest wins": it points every claimed resource at the claiming
//! session and reports which sessions lost one. Tearing a session down drops
//! only the routes that still point at it.
use vstd::prelude::*;

use crate::proto::frames::{self, Resource, ResourceView};
use crate::table::{Key, Table};

verus! {

/// A live daemon session, as the routing table knows it.
#[derive(Clone, Copy, Debug, PartialEq, Eq, Structural)]
pub struct SessionHandle {
    pub session_id: u64,
    pub user_id: i64,
}

impl SessionHandle {
    pub fn new(session_id: u64, user_id: i64) -> (r: Self)
        ensures
            r == (SessionHandle { session_id, user_id }),
    {
        SessionHandle { session_id, user_id }
    }
}

/// Routes after `keys` were pointed at `s`.
pub open spec fn routed<K>(m: Map<K, SessionHandle>, s: SessionHandle, keys: Seq<K>) -> Map<
    K,
    SessionHandle,
> {
    Map::new(
        |k: K| m.dom().contains(k) || keys.contains(k),
        |k: K|
            if keys.contains(k) {
                s
            } else {
                m[k]
            },
    )
}

/// The takeovers of claiming `keys` in order: each key that another session
/// served at its turn, with the handle that lost it.
pub open spec fn lost<K>(m: Map<K, SessionHandle>, s: SessionHandle, keys: Seq<K>) -> Seq<
    (SessionHandle, K),
>
    decreases keys.len(),
{
    if keys.len() == 0 {
        Seq::empty()
    } else {
        let rest = lost(m, s, keys.drop_last());
        let now = routed(m, s, keys.drop_last());
        let k = keys.last();
        if now.dom().contains(k) && now[k].session_id != s.session_id {
            rest.push((now[k], k))
        } else {
            rest
        }
    }
}

/// Routes without those of one session.
pub open spec fn without_session<K>(m: Map<K, SessionHandle>, id: u64) -> Map<K, SessionHandle> {
    Map::new(|k: K| m.dom().contains(k) && m[k].session_id != id, |k: K| m[k])
}

/// Routes without the given keys.
pub open spec fn without_keys<K>(m: Map<K, SessionHandle>, keys: Seq<K>) -> Map<K, SessionHandle> {
    Map::new(|k: K| m.dom().contains(k) && !keys.contains(k), |k: K| m[k])
}

/// The routes that removing `keys` in order takes down, with their sessions.
pub open spec fn taken_down<K>(m: Map<K, SessionHandle>, keys: Seq<K>) -> Seq<(SessionHandle, K)>
    decreases keys.len(),
{
    if keys.len() == 0 {
        Seq::empty()
    } else {
        let rest = taken_down(m, keys.drop_last());
        let now = without_keys(m, keys.drop_last());
        let k = keys.last();
        if now.dom().contains(k) {
            rest.push((now[k], k))
        } else {
            rest
        }
    }
}

/// The keys that sessions of one user serve.
pub open spec fn held<K>(m: Map<K, SessionHandle>, user_id: i64) -> Set<K> {
    Set::new(|k: K| m.dom().contains(k) && m[k].user_id == user_id)
}

/// Hostname takeovers as resources.
pub open spec fn host_notices(l: Seq<(SessionHandle, Seq<char>)>) -> Seq<
    (SessionHandle, ResourceView),
> {
    l.map_values(|p: (SessionHandle, Seq<char>)| (p.0, ResourceView::Host(p.1)))
}

/// Port takeovers as resources.
pub open spec fn port_notices(l: Seq<(SessionHandle, u16)>) -> Seq<(SessionHandle, ResourceView)> {
    l.map_values(|p: (SessionHandle, u16)| (p.0, ResourceView::Port(p.1)))
}

/// View of a list of notices.
pub open spec fn notices(v: Seq<(SessionHandle, Resource)>) -> Seq<(SessionHandle, ResourceView)> {
    v.map_values(|p: (SessionHandle, Resource)| (p.0, p.1@))
}

/// The mathematical routing table.
pub struct RouterView {
    pub http: Map<Seq<char>, SessionHandle>,
    pub tcp: Map<u16, SessionHandle>,
}

impl RouterView {
    /// The table after a claim.
    pub open spec fn claimed(self, s: SessionHandle, hosts: Seq<Seq<char>>, ports: Seq<u16>) -> Self {
        RouterView { http: routed(self.http, s, hosts), tcp: routed(self.tcp, s, ports) }
    }

    /// Who loses what in a claim: hostnames first, then ports, in claim order.
    pub open spec fn superseded(
        self,
        s: SessionHandle,
        hosts: Seq<Seq<char>>,
        ports: Seq<u16>,
    ) -> Seq<(SessionHandle, ResourceView)> {
        host_notices(lost(self.http, s, hosts)) + port_notices(lost(self.tcp, s, ports))
    }

    /// The table after a session ended.
    pub open spec fn removed(self, id: u64) -> Self {
        RouterView { http: without_session(self.http, id), tcp: without_session(self.tcp, id) }
    }

    /// The table after resources were evicted.
    pub open spec fn evicted(self, hosts: Seq<Seq<char>>, ports: Seq<u16>) -> Self {
        RouterView { http: without_keys(self.http, hosts), tcp: without_keys(self.tcp, ports) }
    }

    /// The routes an eviction takes down.
    pub open spec fn evictions(self, hosts: Seq<Seq<char>>, ports: Seq<u16>) -> Seq<
        (SessionHandle, ResourceView),
    > {
        host_notices(taken_down(self.http, hosts)) + port_notices(taken_down(self.tcp, ports))
    }

    /// Distinct tunnels a user would hold after also claiming these.
    pub open spec fn projected(self, user_id: i64, hosts: Seq<Seq<char>>, ports: Seq<u16>) -> nat {
        held(self.http, user_id).union(hosts.to_set()).len() + held(self.tcp, user_id).union(
            ports.to_set(),
        ).len()
    }
}

/// The relay's hostname and port routing table.
pub struct Router {
    http: Table<String, SessionHandle>,
    tcp: Table<u16, SessionHandle>,
}

impl View for Router {
    type V = RouterView;

    closed spec fn view(&self) -> RouterView {
        RouterView { http: self.http@, tcp: self.tcp@ }
    }
}

proof fn lemma_routed_step<K>(m: Map<K, SessionHandle>, s: SessionHandle, keys: Seq<K>, i: int)
    requires
        0 <= i < keys.len(),
    ensures
        routed(m, s, keys.take(i + 1)) == routed(m, s, keys.take(i)).insert(keys[i], s),
        lost(m, s, keys.take(i + 1)) == ({
            let now = routed(m, s, keys.take(i));
            if now.dom().contains(keys[i]) && now[keys[i]].session_id != s.session_id {
                lost(m, s, keys.take(i)).push((now[keys[i]], keys[i]))
            } else {
                lost(m, s, keys.take(i))
            }
        }),
{
    let a = keys.take(i + 1);
    let b = keys.take(i);
    assert(a.drop_last() =~= b);
    assert(a.last() == keys[i]);
    assert forall|k: K| a.contains(k) == (b.contains(k) || k == keys[i]) by {
        if a.contains(k) {
            let j = choose|j: int| 0 <= j < a.len() && a[j] == k;
            if j < i {
                assert(b[j] == k);
            }
        }
        if b.contains(k) {
            let j = choose|j: int| 0 <= j < b.len() && b[j] == k;
            assert(a[j] == k);
        }
        assert(a[i] == keys[i]);
    }
    assert(routed(m, s, a) =~= routed(m, s, b).insert(keys[i], s));
}

proof fn lemma_taken_step<K>(m: Map<K, SessionHandle>, keys: Seq<K>, i: int)
    requires
        0 <= i < keys.len(),
    ensures
        without_keys(m, keys.take(i + 1)) == without_keys(m, keys.take(i)).remove(keys[i]),
        taken_down(m, keys.take(i + 1)) == ({
            let now = without_keys(m, keys.take(i));
            if now.dom().contains(keys[i]) {
                taken_down(m, keys.take(i)).push((now[keys[i]], keys[i]))
            } else {
                taken_down(m, keys.take(i))
            }
        }),
{
    let a = keys.take(i + 1);
    let b = keys.take(i);
    assert(a.drop_last() =~= b);
    assert(a.last() == keys[i]);
    assert forall|k: K| a.contains(k) == (b.contains(k) || k == keys[i]) by {
        if a.contains(k) {
            let j = choose|j: int| 0 <= j < a.len() && a[j] == k;
            if j < i {
                assert(b[j] == k);
            }
        }
        if b.contains(k) {
            let j = choose|j: int| 0 <= j < b.len() && b[j] == k;
            assert(a[j] == k);
        }
        assert(a[i] == keys[i]);
    }
    assert(without_keys(m, a) =~= without_keys(m, b).remove(keys[i]));
}

/// The views of a list of keys.
pub open spec fn key_views<K: Key>(s: Seq<K>) -> Seq<K::V> {
    s.map_values(|k: K| k@)
}

/// Keys of one user's sessions, followed by the new keys that are not there
/// yet.
fn count_union<K: Key>(
    table: &Table<K, SessionHandle>,
    user_id: i64,
    new_keys: &Vec<K>,
) -> (r: usize)
    requires
        table.wf(),
    ensures
        r == held(table@, user_id).union(key_views(new_keys@).to_set()).len(),
{
    let ghost nk = key_views(new_keys@);
    let mut all: Vec<K> = Vec::new();
    let ghost mut av: Seq<K::V> = Seq::empty();
    let n: usize = table.len();
    let mut i: usize = 0;
    proof {
        table.lemma_keys();
    }
    while i < n
        invariant
            i <= n,
            n == table.size(),
            table.wf(),
            av == key_views(all@),
            av.no_duplicates(),
            forall|a: int, b: int|
                0 <= a < table.size() && 0 <= b < table.size() && #[trigger] table.key_view(a)
                    == #[trigger] table.key_view(b) ==> a == b,
            forall|k: K::V|
                av.contains(k) <==> exists|j: int|
                    0 <= j < i && #[trigger] table.key_view(j) == k && held(
                        table@,
                        user_id,
                    ).contains(k),
        decreases n - i,
    {
        let k = table.key_at(i);
        let h = table.get(k);
        let ghost before = av;
        let ghost kv = table.key_view(i as int);
        let mine = match h {
            Some(s) => s.user_id == user_id,
            None => false,
        };
        if mine {
            all.push(k.dup_key());
            proof {
                av = av.push(kv);
                assert(av =~= key_views(all@));
                assert(!before.contains(kv));
                assert forall|a: int, b: int|
                    0 <= a < av.len() && 0 <= b < av.len() && a != b implies av[a] != av[b] by {
                    if a < before.len() {
                        assert(before.contains(av[a]));
                    }
                    if b < before.len() {
                        assert(before.contains(av[b]));
                    }
                }
            }
        }
        proof {
            assert forall|x: K::V|
                av.contains(x) <==> exists|j: int|
                    0 <= j < i + 1 && #[trigger] table.key_view(j) == x && held(
                        table@,
                        user_id,
                    ).contains(x) by {
                if av.contains(x) {
                    let p = choose|p: int| 0 <= p < av.len() && av[p] == x;
                    if p < before.len() {
                        assert(before[p] == x);
                        assert(before.contains(x));
                    } else {
                        assert(table.key_view(i as int) == x);
                    }
                }
                if exists|j: int|
                    0 <= j < i + 1 && #[trigger] table.key_view(j) == x && held(
                        table@,
                        user_id,
                    ).contains(x) {
                    let j = choose|j: int|
                        0 <= j < i + 1 && #[trigger] table.key_view(j) == x && held(
                            table@,
                            user_id,
                        ).contains(x);
                    if j < i {
                        assert(before.contains(x));
                        let p = choose|p: int| 0 <= p < before.len() && before[p] == x;
                        assert(av[p] == x);
                    } else {
                        assert(mine);
                        assert(av[av.len() - 1] == x);
                    }
                }
            }
        }
        i += 1;
    }
    let ghost base = held(table@, user_id);
    proof {
        assert forall|x: K::V| av.to_set().contains(x) == base.contains(x) by {
            if base.contains(x) {
                assert(table@.dom().contains(x));
                table.lemma_keys();
                let j = choose|j: int| 0 <= j < table.size() && table.key_view(j) == x;
                assert(table.key_view(j) == x);
            }
        }
        assert(av.to_set() =~= base);
    }
    let mut i: usize = 0;
    while i < new_keys.len()
        invariant
            i <= new_keys@.len(),
            nk == key_views(new_keys@),
            av == key_views(all@),
            av.no_duplicates(),
            av.to_set() == base.union(nk.take(i as int).to_set()),
        decreases new_keys@.len() - i,
    {
        let ghost before = av;
        let k = &new_keys[i];
        let mut found = false;
        let mut j: usize = 0;
        while j < all.len() && !found
            invariant
                j <= all@.len(),
                av == key_views(all@),
                found ==> av.contains(k@),
                !found ==> forall|p: int| 0 <= p < j ==> av[p] != k@,
            decreases all@.len() - j + (if found {
                0int
            } else {
                1int
            }),
        {
            if all[j].same_key(k) {
                assert(av[j as int] == k@);
                found = true;
            } else {
                j += 1;
            }
        }
        if !found {
            all.push(k.dup_key());
            proof {
                av = av.push(k@);
                assert(av =~= key_views(all@));
                assert(!before.contains(k@));
            }
        }
        proof {
            let a = nk.take(i as int);
            let b = nk.take(i + 1);
            assert(b =~= a.push(nk[i as int]));
            assert forall|x: K::V| av.to_set().contains(x) == base.union(b.to_set()).contains(
                x,
            ) by {
                assert(before.to_set().contains(x) == base.union(a.to_set()).contains(x));
                if b.contains(x) {
                    let p = choose|p: int| 0 <= p < b.len() && b[p] == x;
                    if p < i {
                        assert(a[p] == x);
                    } else {
                        assert(x == k@);
                    }
                }
                if a.contains(x) {
                    let p = choose|p: int| 0 <= p < a.len() && a[p] == x;
                    assert(b[p] == x);
                }
                assert(b[i as int] == k@);
                if !found {
                    if av.contains(x) {
                        let p = choose|p: int| 0 <= p < av.len() && av[p] == x;
                        if p < before.len() {
                            assert(before[p] == x);
                        }
                    }
                    if before.contains(x) {
                        let p = choose|p: int| 0 <= p < before.len() && before[p] == x;
                        assert(av[p] == x);
                    }
                    assert(av[before.len() as int] == k@);
                }
            }
            assert(av.to_set() =~= base.union(b.to_set()));
        }
        i += 1;
    }
    proof {
        assert(nk.take(i as int) =~= nk);
        av.unique_seq_to_set();
    }
    all.len()
}

impl Router {
    /// Both tables hold each key once.
    pub closed spec fn wf(&self) -> bool {
        self.http.wf() && self.tcp.wf()
    }

    /// An empty routing table.
    pub fn new() -> (r: Self)
        ensures
            r.wf(),
            r@.http == Map::<Seq<char>, SessionHandle>::empty(),
            r@.tcp == Map::<u16, SessionHandle>::empty(),
    {
        Router { http: Table::new(), tcp: Table::new() }
    }

    /// Resolve a hostname to its serving session, if any.
    pub fn lookup_http(&self, host: &str) -> (r: Option<SessionHandle>)
        requires
            self.wf(),
        ensures
            r == (if self@.http.dom().contains(host@) {
                Some(self@.http[host@])
            } else {
                None
            }),
    {
        match self.http.get(&host.to_owned()) {
            Some(h) => Some(*h),
            None => None,
        }
    }

    /// Resolve a public TCP port to its serving session, if any.
    pub fn lookup_tcp(&self, port: u16) -> (r: Option<SessionHandle>)
        requires
            self.wf(),
        ensures
            r == (if self@.tcp.dom().contains(port) {
                Some(self@.tcp[port])
            } else {
                None
            }),
    {
        match self.tcp.get(&port) {
            Some(h) => Some(*h),
            None => None,
        }
    }

    /// Point the hostnames and ports at `session`, taking them over from any
    /// session that holds them. Returns who lost what, so that the caller can
    /// tell them. Claiming what the session already holds changes nothing.
    pub fn claim(
        &mut self,
        session: &SessionHandle,
        hosts: &Vec<String>,
        ports: &Vec<u16>,
    ) -> (r: Vec<(SessionHandle, Resource)>)
        requires
            old(self).wf(),
        ensures
            final(self).wf(),
            final(self)@ == old(self)@.claimed(*session, frames::names(hosts@), ports@),
            notices(r@) == old(self)@.superseded(*session, frames::names(hosts@), ports@),
    {
        let ghost start = self@;
        let ghost hv = frames::names(hosts@);
        let mut out: Vec<(SessionHandle, Resource)> = Vec::new();
        let mut i: usize = 0;
        proof {
            assert(routed(start.http, *session, hv.take(0)) =~= start.http);
            assert(notices(out@) =~= host_notices(lost(start.http, *session, hv.take(0))));
        }
        while i < hosts.len()
            invariant
                i <= hosts@.len(),
                hv == frames::names(hosts@),
                self.wf(),
                self@.tcp == start.tcp,
                self@.http == routed(start.http, *session, hv.take(i as int)),
                notices(out@) == host_notices(lost(start.http, *session, hv.take(i as int))),
            decreases hosts@.len() - i,
        {
            let ghost gone = out@;
            proof {
                lemma_routed_step(start.http, *session, hv, i as int);
            }
            let prev = self.http.insert(hosts[i].clone(), *session);
            match prev {
                Some(p) => {
                    if p.session_id != session.session_id {
                        let res = Resource::Host(hosts[i].clone());
                        out.push((p, res));
                        assert(notices(out@) =~= notices(gone).push((p, res@)));
                        assert(notices(out@) =~= host_notices(
                            lost(start.http, *session, hv.take(i + 1)),
                        ));
                    }
                },
                None => {},
            }
            i += 1;
        }
        assert(hv.take(i as int) =~= hv);
        let mut j: usize = 0;
        proof {
            assert(routed(start.tcp, *session, ports@.take(0)) =~= start.tcp);
            assert(notices(out@) =~= host_notices(lost(start.http, *session, hv)) + port_notices(
                lost(start.tcp, *session, ports@.take(0)),
            ));
        }
        while j < ports.len()
            invariant
                j <= ports@.len(),
                self.wf(),
                self@.http == routed(start.http, *session, hv),
                self@.tcp == routed(start.tcp, *session, ports@.take(j as int)),
                notices(out@) == host_notices(lost(start.http, *session, hv)) + port_notices(
                    lost(start.tcp, *session, ports@.take(j as int)),
                ),
            decreases ports@.len() - j,
        {
            let ghost gone = out@;
            proof {
                lemma_routed_step(start.tcp, *session, ports@, j as int);
            }
            let prev = self.tcp.insert(ports[j], *session);
            match prev {
                Some(p) => {
                    if p.session_id != session.session_id {
                        out.push((p, Resource::Port(ports[j])));
                        assert(notices(out@) =~= notices(gone).push(
                            (p, ResourceView::Port(ports@[j as int])),
                        ));
                        assert(notices(out@) =~= host_notices(lost(start.http, *session, hv))
                            + port_notices(lost(start.tcp, *session, ports@.take(j + 1))));
                    }
                },
                None => {},
            }
            j += 1;
        }
        assert(ports@.take(j as int) =~= ports@);
        out
    }

    /// Remove every route that still points at this session.
    pub fn remove_session(&mut self, session_id: u64)
        requires
            old(self).wf(),
        ensures
            final(self).wf(),
            final(self)@ == old(self)@.removed(session_id),
    {
        Self::drop_session(&mut self.http, session_id);
        Self::drop_session(&mut self.tcp, session_id);
    }

    fn drop_session<K: Key>(table: &mut Table<K, SessionHandle>, session_id: u64)
        requires
            old(table).wf(),
        ensures
            final(table).wf(),
            final(table)@ == without_session(old(table)@, session_id),
    {
        let ghost start = table@;
        let mut doomed: Vec<K> = Vec::new();
        let n: usize = table.len();
        let mut i: usize = 0;
        while i < n
            invariant
                i <= n,
                n == table.size(),
                table.wf(),
                table@ == start,
                forall|j: int|
                    0 <= j < i && start[#[trigger] table.key_view(j)].session_id == session_id
                        ==> exists|p: int|
                        0 <= p < doomed@.len() && (#[trigger] doomed@[p])@ == table.key_view(j),
                forall|p: int|
                    0 <= p < doomed@.len() ==> start.dom().contains((#[trigger] doomed@[p])@)
                        && start[doomed@[p]@].session_id == session_id,
            decreases n - i,
        {
            let ghost before = doomed@;
            let k = table.key_at(i);
            let hit = match table.get(k) {
                Some(s) => s.session_id == session_id,
                None => false,
            };
            if hit {
                doomed.push(k.dup_key());
            }
            proof {
                assert forall|j: int|
                    0 <= j < i + 1 && start[#[trigger] table.key_view(j)].session_id
                        == session_id implies exists|p: int|
                    0 <= p < doomed@.len() && (#[trigger] doomed@[p])@ == table.key_view(j) by {
                    if j < i {
                        let p = choose|p: int|
                            0 <= p < before.len() && (#[trigger] before[p])@ == table.key_view(j);
                        assert(doomed@[p]@ == table.key_view(j));
                    } else {
                        assert(hit);
                        assert(doomed@[doomed@.len() - 1]@ == table.key_view(j));
                    }
                }
            }
            i += 1;
        }
        let ghost dv = doomed@.map_values(|k: K| k@);
        let mut i: usize = 0;
        proof {
            table.lemma_keys();
            assert forall|k: K::V|
                start.dom().contains(k) implies ((start[k].session_id == session_id) <==>
                dv.contains(k)) by {
                let j = choose|j: int| 0 <= j < table.size() && table.key_view(j) == k;
                if start[k].session_id == session_id {
                    assert(start[table.key_view(j)].session_id == session_id);
                    let p = choose|p: int|
                        0 <= p < doomed@.len() && (#[trigger] doomed@[p])@ == table.key_view(j);
                    assert(dv[p] == k);
                }
                if dv.contains(k) {
                    let p = choose|p: int| 0 <= p < dv.len() && dv[p] == k;
                    assert(doomed@[p]@ == k);
                }
            }
            assert(without_keys(start, dv.take(0)) =~= start);
        }
        while i < doomed.len()
            invariant
                i <= doomed@.len(),
                dv == doomed@.map_values(|k: K| k@),
                table.wf(),
                table@ == without_keys(start, dv.take(i as int)),
            decreases doomed@.len() - i,
        {
            proof {
                lemma_taken_step(start, dv, i as int);
            }
            let _ = table.remove(&doomed[i]);
            i += 1;
        }
        proof {
            assert(dv.take(i as int) =~= dv);
            assert(table@ =~= without_session(start, session_id));
        }
    }

    /// Take down the routes of these hostnames and ports, whoever serves them.
    /// Returns each route taken down with the session that served it.
    pub fn evict_routes(&mut self, hosts: &Vec<String>, ports: &Vec<u16>) -> (r: Vec<
        (SessionHandle, Resource),
    >)
        requires
            old(self).wf(),
        ensures
            final(self).wf(),
            final(self)@ == old(self)@.evicted(frames::names(hosts@), ports@),
            notices(r@) == old(self)@.evictions(frames::names(hosts@), ports@),
    {
        let ghost start = self@;
        let ghost hv = frames::names(hosts@);
        let mut out: Vec<(SessionHandle, Resource)> = Vec::new();
        let mut i: usize = 0;
        proof {
            assert(without_keys(start.http, hv.take(0)) =~= start.http);
            assert(notices(out@) =~= host_notices(taken_down(start.http, hv.take(0))));
        }
        while i < hosts.len()
            invariant
                i <= hosts@.len(),
                hv == frames::names(hosts@),
                self.wf(),
                self@.tcp == start.tcp,
                self@.http == without_keys(start.http, hv.take(i as int)),
                notices(out@) == host_notices(taken_down(start.http, hv.take(i as int))),
            decreases hosts@.len() - i,
        {
            let ghost gone = out@;
            proof {
                lemma_taken_step(start.http, hv, i as int);
            }
            match self.http.remove(&hosts[i]) {
                Some(p) => {
                    let res = Resource::Host(hosts[i].clone());
                    out.push((p, res));
                    assert(notices(out@) =~= notices(gone).push((p, res@)));
                    assert(notices(out@) =~= host_notices(
                        taken_down(start.http, hv.take(i + 1)),
                    ));
                },
                None => {},
            }
            i += 1;
        }
        assert(hv.take(i as int) =~= hv);
        let mut j: usize = 0;
        proof {
            assert(without_keys(start.tcp, ports@.take(0)) =~= start.tcp);
            assert(notices(out@) =~= host_notices(taken_down(start.http, hv)) + port_notices(
                taken_down(start.tcp, ports@.take(0)),
            ));
        }
        while j < ports.len()
            invariant
                j <= ports@.len(),
                self.wf(),
                self@.http == without_keys(start.http, hv),
                self@.tcp == without_keys(start.tcp, ports@.take(j as int)),
                notices(out@) == host_notices(taken_down(start.http, hv)) + port_notices(
                    taken_down(start.tcp, ports@.take(j as int)),
                ),
            decreases ports@.len() - j,
        {
            let ghost gone = out@;
            proof {
                lemma_taken_step(start.tcp, ports@, j as int);
            }
            match self.tcp.remove(&ports[j]) {
                Some(p) => {
                    out.push((p, Resource::Port(ports[j])));
                    assert(notices(out@) =~= notices(gone).push(
                        (p, ResourceView::Port(ports@[j as int])),
                    ));
                    assert(notices(out@) =~= host_notices(taken_down(start.http, hv))
                        + port_notices(taken_down(start.tcp, ports@.take(j + 1))));
                },
                None => {},
            }
            j += 1;
        }
        assert(ports@.take(j as int) =~= ports@);
        out
    }

    /// Number of routed hostnames.
    pub fn hostname_count(&self) -> (r: usize)
        requires
            self.wf(),
        ensures
            self@.http.dom().finite(),
            r == self@.http.dom().len(),
    {
        proof {
            self.http.lemma_size();
        }
        self.http.len()
    }

    /// Distinct tunnels `user_id` would hold after additionally claiming
    /// `new_hosts` and `new_ports`. What the user already holds does not count
    /// twice.
    pub fn projected_tunnel_count(
        &self,
        user_id: i64,
        new_hosts: &Vec<String>,
        new_ports: &Vec<u16>,
    ) -> (r: u128)
        requires
            self.wf(),
        ensures
            r == self@.projected(user_id, frames::names(new_hosts@), new_ports@),
    {
        let a: usize = count_union(&self.http, user_id, new_hosts);
        let b: usize = count_union(&self.tcp, user_id, new_ports);
        proof {
            assert(key_views(new_hosts@) =~= frames::names(new_hosts@));
            assert(key_views(new_ports@) =~= new_ports@);
        }
        a as u128 + b as u128
    }
}

/// After a claim, every claimed resource is served by the claiming session and
/// every other route is as it was.
pub proof fn newest_wins(r: RouterView, s: SessionHandle, hosts: Seq<Seq<char>>, ports: Seq<u16>)
    ensures
        forall|h: Seq<char>|
            hosts.contains(h) ==> #[trigger] r.claimed(s, hosts, ports).http.dom().contains(h)
                && r.claimed(s, hosts, ports).http[h] == s,
        forall|p: u16|
            ports.contains(p) ==> #[trigger] r.claimed(s, hosts, ports).tcp.dom().contains(p)
                && r.claimed(s, hosts, ports).tcp[p] == s,
        forall|h: Seq<char>|
            !hosts.contains(h) ==> (#[trigger] r.claimed(s, hosts, ports).http.dom().contains(h)
                == r.http.dom().contains(h)) && (r.http.dom().contains(h) ==> r.claimed(
                s,
                hosts,
                ports,
            ).http[h] == r.http[h]),
        forall|p: u16|
            !ports.contains(p) ==> (#[trigger] r.claimed(s, hosts, ports).tcp.dom().contains(p)
                == r.tcp.dom().contains(p)) && (r.tcp.dom().contains(p) ==> r.claimed(
                s,
                hosts,
                ports,
            ).tcp[p] == r.tcp[p]),
{
}

proof fn lemma_lost_nothing<K>(m: Map<K, SessionHandle>, s: SessionHandle, keys: Seq<K>)
    requires
        forall|k: K| keys.contains(k) && m.dom().contains(k) ==> m[k].session_id == s.session_id,
    ensures
        lost(m, s, keys) == Seq::<(SessionHandle, K)>::empty(),
    decreases keys.len(),
{
    if keys.len() > 0 {
        let rest = keys.drop_last();
        assert forall|k: K| rest.contains(k) && m.dom().contains(k) implies m[k].session_id
            == s.session_id by {
            let j = choose|j: int| 0 <= j < rest.len() && rest[j] == k;
            assert(keys[j] == k);
            assert(keys.contains(k));
        }
        lemma_lost_nothing(m, s, rest);
        assert(keys[keys.len() - 1] == keys.last());
        assert(keys.contains(keys.last()));
    }
}

/// Claiming again what a session already holds supersedes nobody and changes
/// nothing.
pub proof fn reclaim_is_idempotent(
    r: RouterView,
    s: SessionHandle,
    hosts: Seq<Seq<char>>,
    ports: Seq<u16>,
)
    ensures
        r.claimed(s, hosts, ports).claimed(s, hosts, ports) == r.claimed(s, hosts, ports),
        r.claimed(s, hosts, ports).superseded(s, hosts, ports) == Seq::<
            (SessionHandle, ResourceView),
        >::empty(),
{
    let c = r.claimed(s, hosts, ports);
    assert(c.claimed(s, hosts, ports).http =~= c.http);
    assert(c.claimed(s, hosts, ports).tcp =~= c.tcp);
    lemma_lost_nothing(c.http, s, hosts);
    lemma_lost_nothing(c.tcp, s, ports);
    assert(c.superseded(s, hosts, ports) =~= Seq::<(SessionHandle, ResourceView)>::empty());
}

/// A session that was superseded and then disconnects does not evict the new
/// owner: its teardown leaves every route of another session in place.
pub proof fn old_disconnect_is_safe(
    r: RouterView,
    old_id: u64,
    s: SessionHandle,
    hosts: Seq<Seq<char>>,
    ports: Seq<u16>,
)
    requires
        s.session_id != old_id,
    ensures
        forall|h: Seq<char>|
            hosts.contains(h) ==> #[trigger] r.claimed(s, hosts, ports).removed(
                old_id,
            ).http.dom().contains(h) && r.claimed(s, hosts, ports).removed(old_id).http[h] == s,
        forall|p: u16|
            ports.contains(p) ==> #[trigger] r.claimed(s, hosts, ports).removed(
                old_id,
            ).tcp.dom().contains(p) && r.claimed(s, hosts, ports).removed(old_id).tcp[p] == s,
{
}

/// After teardown no route points at the session, and no other route is gone.
pub proof fn teardown_is_exact(r: RouterView, id: u64)
    ensures
        forall|h: Seq<char>| #[trigger]
            r.removed(id).http.dom().contains(h) <==> r.http.dom().contains(h)
                && r.http[h].session_id != id,
        forall|p: u16| #[trigger]
            r.removed(id).tcp.dom().contains(p) <==> r.tcp.dom().contains(p)
                && r.tcp[p].session_id != id,
        r.removed(id).removed(id) == r.removed(id),
{
    assert(r.removed(id).removed(id).http =~= r.removed(id).http);
    assert(r.removed(id).removed(id).tcp =~= r.removed(id).tcp);
}

proof fn lemma_lost_was_live<K>(m: Map<K, SessionHandle>, s: SessionHandle, keys: Seq<K>, i: int)
    requires
        0 <= i < lost(m, s, keys).len(),
    ensures
        keys.contains(lost(m, s, keys)[i].1),
        m.dom().contains(lost(m, s, keys)[i].1),
        m[lost(m, s, keys)[i].1] == lost(m, s, keys)[i].0,
        lost(m, s, keys)[i].0.session_id != s.session_id,
    decreases keys.len(),
{
    if keys.len() > 0 {
        let rest = keys.drop_last();
        let l = lost(m, s, rest);
        if i < l.len() {
            lemma_lost_was_live(m, s, rest, i);
            let j = choose|j: int| 0 <= j < rest.len() && rest[j] == l[i].1;
            assert(keys[j] == l[i].1);
        } else {
            assert(keys[keys.len() - 1] == keys.last());
        }
    }
}

/// A session told that it lost a hostname did serve it before the claim, and
/// is never the claiming session itself.
pub proof fn superseded_were_live(
    r: RouterView,
    s: SessionHandle,
    hosts: Seq<Seq<char>>,
    ports: Seq<u16>,
    i: int,
)
    requires
        0 <= i < r.superseded(s, hosts, ports).len(),
    ensures
        r.superseded(s, hosts, ports)[i].0.session_id != s.session_id,
        match r.superseded(s, hosts, ports)[i].1 {
            ResourceView::Host(h) => hosts.contains(h) && r.http.dom().contains(h) && r.http[h]
                == r.superseded(s, hosts, ports)[i].0,
            ResourceView::Port(p) => ports.contains(p) && r.tcp.dom().contains(p) && r.tcp[p]
                == r.superseded(s, hosts, ports)[i].0,
        },
{
    let a = lost(r.http, s, hosts);
    if i < a.len() {
        lemma_lost_was_live(r.http, s, hosts, i);
    } else {
        lemma_lost_was_live(r.tcp, s, ports, i - a.len());
    }
}

proof fn lemma_lost_complete<K>(m: Map<K, SessionHandle>, s: SessionHandle, keys: Seq<K>, k: K)
    requires
        keys.contains(k),
        m.dom().contains(k),
        m[k].session_id != s.session_id,
    ensures
        lost(m, s, keys).contains((m[k], k)),
    decreases keys.len(),
{
    let rest = keys.drop_last();
    let l = lost(m, s, rest);
    if rest.contains(k) {
        lemma_lost_complete(m, s, rest, k);
        let j = choose|j: int| 0 <= j < l.len() && l[j] == (m[k], k);
        assert(lost(m, s, keys)[j] == (m[k], k));
    } else {
        let j = choose|j: int| 0 <= j < keys.len() && keys[j] == k;
        if j < rest.len() {
            assert(rest[j] == k);
        }
        assert(keys.last() == k);
        assert(lost(m, s, keys)[l.len() as int] == (m[k], k));
    }
}

/// Every session that loses a resource to a claim is told of it.
pub proof fn every_loss_is_reported(
    r: RouterView,
    s: SessionHandle,
    hosts: Seq<Seq<char>>,
    ports: Seq<u16>,
)
    ensures
        forall|h: Seq<char>|
            hosts.contains(h) && #[trigger] r.http.dom().contains(h) && r.http[h].session_id
                != s.session_id ==> r.superseded(s, hosts, ports).contains(
                (r.http[h], ResourceView::Host(h)),
            ),
        forall|p: u16|
            ports.contains(p) && #[trigger] r.tcp.dom().contains(p) && r.tcp[p].session_id
                != s.session_id ==> r.superseded(s, hosts, ports).contains(
                (r.tcp[p], ResourceView::Port(p)),
            ),
{
    let a = lost(r.http, s, hosts);
    let b = lost(r.tcp, s, ports);
    assert forall|h: Seq<char>|
        hosts.contains(h) && #[trigger] r.http.dom().contains(h) && r.http[h].session_id
            != s.session_id implies r.superseded(s, hosts, ports).contains(
        (r.http[h], ResourceView::Host(h)),
    ) by {
        lemma_lost_complete(r.http, s, hosts, h);
        let j = choose|j: int| 0 <= j < a.len() && a[j] == (r.http[h], h);
        assert(r.superseded(s, hosts, ports)[j] == (r.http[h], ResourceView::Host(h)));
    }
    assert forall|p: u16|
        ports.contains(p) && #[trigger] r.tcp.dom().contains(p) && r.tcp[p].session_id
            != s.session_id implies r.superseded(s, hosts, ports).contains(
        (r.tcp[p], ResourceView::Port(p)),
    ) by {
        lemma_lost_complete(r.tcp, s, ports, p);
        let j = choose|j: int| 0 <= j < b.len() && b[j] == (r.tcp[p], p);
        assert(r.superseded(s, hosts, ports)[a.len() + j] == (r.tcp[p], ResourceView::Port(p)));
    }
}

/// The projected number of a user's tunnels is what the user has once the claim
/// is granted: every hostname and every port that then leads to one of the
/// user's sessions, each counted once.
pub proof fn projection_is_the_count_after_the_claim(
    r: RouterView,
    s: SessionHandle,
    hosts: Seq<Seq<char>>,
    ports: Seq<u16>,
)
    ensures
        ({
            let after = r.claimed(s, hosts, ports);
            r.projected(s.user_id, hosts, ports) == Set::new(
                |h: Seq<char>| after.http.dom().contains(h) && after.http[h].user_id == s.user_id,
            ).len() + Set::new(
                |p: u16| after.tcp.dom().contains(p) && after.tcp[p].user_id == s.user_id,
            ).len()
        }),
{
    let after = r.claimed(s, hosts, ports);
    assert(held(r.http, s.user_id).union(hosts.to_set()) =~= Set::new(
        |h: Seq<char>| after.http.dom().contains(h) && after.http[h].user_id == s.user_id,
    ));
    assert(held(r.tcp, s.user_id).union(ports.to_set()) =~= Set::new(
        |p: u16| after.tcp.dom().contains(p) && after.tcp[p].user_id == s.user_id,
    ));
}

/// Taking a session down leaves every other route as it was.
pub proof fn teardown_moves_no_other_route(r: RouterView, id: u64, host: Seq<char>, port: u16)
    ensures
        r.http.dom().contains(host) && r.http[host].session_id != id ==> r.removed(id).http[host]
            == r.http[host],
        r.tcp.dom().contains(port) && r.tcp[port].session_id != id ==> r.removed(id).tcp[port]
            == r.tcp[port],
{
}

proof fn lemma_taken_was_live<K>(m: Map<K, SessionHandle>, keys: Seq<K>, i: int)
    requires
        0 <= i < taken_down(m, keys).len(),
    ensures
        keys.contains(taken_down(m, keys)[i].1),
        m.dom().contains(taken_down(m, keys)[i].1),
        m[taken_down(m, keys)[i].1] == taken_down(m, keys)[i].0,
    decreases keys.len(),
{
    if keys.len() > 0 {
        let rest = taken_down(m, keys.drop_last());
        if i < rest.len() {
            lemma_taken_was_live(m, keys.drop_last(), i);
            let k = choose|k: int|
                0 <= k < keys.drop_last().len() && keys.drop_last()[k] == rest[i].1;
            assert(keys[k] == rest[i].1);
        } else {
            assert(keys[keys.len() - 1] == keys.last());
        }
    }
}

proof fn lemma_taken_complete<K>(m: Map<K, SessionHandle>, keys: Seq<K>, k: K)
    requires
        keys.contains(k),
        m.dom().contains(k),
    ensures
        taken_down(m, keys).contains((m[k], k)),
    decreases keys.len(),
{
    let front = keys.drop_last();
    let rest = taken_down(m, front);
    let all = taken_down(m, keys);
    if front.contains(k) {
        lemma_taken_complete(m, front, k);
        let i = choose|i: int| 0 <= i < rest.len() && rest[i] == (m[k], k);
        assert(all[i] == (m[k], k));
    } else {
        let i = choose|i: int| 0 <= i < keys.len() && keys[i] == k;
        if i < front.len() {
            assert(front[i] == k);
        }
        assert(keys.last() == k);
        assert(all[all.len() - 1] == (m[k], k));
    }
}

/// An eviction takes down exactly the listed routes, and tells exactly the
/// sessions that served one of them, of that resource.
pub proof fn eviction_is_exact(
    r: RouterView,
    hosts: Seq<Seq<char>>,
    ports: Seq<u16>,
    host: Seq<char>,
    port: u16,
    i: int,
)
    ensures
        ({
            let after = r.evicted(hosts, ports);
            let told = r.evictions(hosts, ports);
            &&& after.http.dom().contains(host) == (r.http.dom().contains(host) && !hosts.contains(
                host,
            ))
            &&& after.http.dom().contains(host) ==> after.http[host] == r.http[host]
            &&& after.tcp.dom().contains(port) == (r.tcp.dom().contains(port) && !ports.contains(
                port,
            ))
            &&& after.tcp.dom().contains(port) ==> after.tcp[port] == r.tcp[port]
            &&& hosts.contains(host) && r.http.dom().contains(host) ==> told.contains(
                (r.http[host], ResourceView::Host(host)),
            )
            &&& ports.contains(port) && r.tcp.dom().contains(port) ==> told.contains(
                (r.tcp[port], ResourceView::Port(port)),
            )
            &&& 0 <= i < told.len() ==> match told[i].1 {
                ResourceView::Host(h) => hosts.contains(h) && r.http.dom().contains(h) && r.http[h]
                    == told[i].0,
                ResourceView::Port(p) => ports.contains(p) && r.tcp.dom().contains(p) && r.tcp[p]
                    == told[i].0,
            }
        }),
{
    let a = taken_down(r.http, hosts);
    let b = taken_down(r.tcp, ports);
    let told = r.evictions(hosts, ports);
    if hosts.contains(host) && r.http.dom().contains(host) {
        lemma_taken_complete(r.http, hosts, host);
        let j = choose|j: int| 0 <= j < a.len() && a[j] == (r.http[host], host);
        assert(told[j] == (r.http[host], ResourceView::Host(host)));
    }
    if ports.contains(port) && r.tcp.dom().contains(port) {
        lemma_taken_complete(r.tcp, ports, port);
        let j = choose|j: int| 0 <= j < b.len() && b[j] == (r.tcp[port], port);
        assert(told[a.len() + j] == (r.tcp[port], ResourceView::Port(port)));
    }
    if 0 <= i < told.len() {
        if i < a.len() {
            lemma_taken_was_live(r.http, hosts, i);
        } else {
            lemma_taken_was_live(r.tcp, ports, i - a.len());
        }
    }
}

} // verus!
