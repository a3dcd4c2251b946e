//! Authentication and ownership checks for the relay.
//!
//! The session layer depends only on [`Authenticator`], not on how credentials
//! are stored. Its methods run at connect and claim time only.
use vstd::prelude::*;

use crate::proto::frames;
use crate::relay::ledger::WhoView;
use crate::relay::rows;
use crate::table::Table;
use crate::text;

verus! {

/// An authenticated user, resolved from a bearer token.
#[derive(Clone, Debug)]
pub struct AuthedUser {
    pub user_id: i64,
    pub name: String,
}

impl View for AuthedUser {
    type V = WhoView;

    open spec fn view(&self) -> WhoView {
        WhoView { user_id: self.user_id, name: self.name@ }
    }
}

/// View of an authentication result.
pub open spec fn who_view(u: Option<AuthedUser>) -> Option<WhoView> {
    match u {
        Some(u) => Some(u@),
        None => None,
    }
}

/// What became of claiming one hostname.
#[derive(Clone, Debug, PartialEq, Eq)]
pub enum ClaimOutcome {
    /// The claimant owns it, already or from now on.
    Owned,
    /// Someone else owns it.
    Taken,
    /// The claimant already owns as much as its plan allows.
    CapExceeded,
    /// No such hostname may be claimed here, and why.
    Invalid(&'static str),
    /// It could not be stored.
    Error,
}

/// View of a [`ClaimOutcome`].
pub enum ClaimView {
    Owned,
    Taken,
    CapExceeded,
    Invalid(Seq<char>),
    Error,
}

impl View for ClaimOutcome {
    type V = ClaimView;

    open spec fn view(&self) -> ClaimView {
        match self {
            ClaimOutcome::Owned => ClaimView::Owned,
            ClaimOutcome::Taken => ClaimView::Taken,
            ClaimOutcome::CapExceeded => ClaimView::CapExceeded,
            ClaimOutcome::Invalid(why) => ClaimView::Invalid(why@),
            ClaimOutcome::Error => ClaimView::Error,
        }
    }
}

/// Resolves tokens to users and answers ownership questions for hostnames and
/// TCP ports.
pub trait Authenticator: View + Sized {
    /// What holds of the store between calls.
    spec fn inv(&self) -> bool;

    /// The user of a token; `None` for an unknown and for a revoked one alike.
    spec fn who(v: Self::V, token: Seq<char>) -> Option<WhoView>;

    /// `user` may claim this fully-qualified hostname without registering it.
    spec fn owns_host(v: Self::V, user: i64, host: Seq<char>) -> bool;

    /// `user` may claim this public port.
    spec fn owns_tcp(v: Self::V, user: i64, port: u16) -> bool;

    /// Register-or-own one hostname, under an optional cap.
    spec fn claim_step(v: Self::V, user: i64, host: Seq<char>, max: Option<i64>, now: i64) -> (
        Self::V,
        ClaimView,
    );

    /// Give up one hostname; the answer is whether `user` owned it.
    spec fn release_host_step(v: Self::V, user: i64, host: Seq<char>) -> (Self::V, bool);

    /// Give up one port; the answer is whether `user` owned it.
    spec fn release_port_step(v: Self::V, user: i64, port: u16) -> (Self::V, bool);

    /// The fully-qualified hostnames `user` owns.
    spec fn hosts_of(v: Self::V, user: i64) -> Seq<Seq<char>>;

    /// The ports `user` owns.
    spec fn ports_of(v: Self::V, user: i64) -> Seq<u16>;

    fn authenticate(&self, token: &str) -> (r: Option<AuthedUser>)
        requires
            self.inv(),
        ensures
            who_view(r) == Self::who(self@, token@),
    ;

    fn owns_hostname(&self, user_id: i64, hostname: &str) -> (r: bool)
        requires
            self.inv(),
        ensures
            r == Self::owns_host(self@, user_id, hostname@),
    ;

    fn owns_port(&self, user_id: i64, port: u16) -> (r: bool)
        requires
            self.inv(),
        ensures
            r == Self::owns_tcp(self@, user_id, port),
    ;

    fn claim_hostname(&mut self, user_id: i64, hostname: &str, max: Option<i64>, now: i64) -> (r:
        ClaimOutcome)
        requires
            old(self).inv(),
        ensures
            final(self).inv(),
            (final(self)@, r@) == Self::claim_step(old(self)@, user_id, hostname@, max, now),
    ;

    fn release_hostname(&mut self, user_id: i64, hostname: &str) -> (r: bool)
        requires
            old(self).inv(),
        ensures
            final(self).inv(),
            (final(self)@, r) == Self::release_host_step(old(self)@, user_id, hostname@),
    ;

    fn release_port(&mut self, user_id: i64, port: u16) -> (r: bool)
        requires
            old(self).inv(),
        ensures
            final(self).inv(),
            (final(self)@, r) == Self::release_port_step(old(self)@, user_id, port),
    ;

    fn owned_hostnames(&self, user_id: i64) -> (r: Vec<String>)
        requires
            self.inv(),
        ensures
            frames::names(r@) == Self::hosts_of(self@, user_id),
    ;

    fn owned_ports(&self, user_id: i64) -> (r: Vec<u16>)
        requires
            self.inv(),
        ensures
            r@ == Self::ports_of(self@, user_id),
    ;
}

/// Hostnames of one user, as a predicate.
pub open spec fn host_grant_of(user: i64) -> spec_fn((i64, Seq<char>)) -> bool {
    |g: (i64, Seq<char>)| g.0 == user
}

/// Ports of one user, as a predicate.
pub open spec fn port_grant_of(user: i64) -> spec_fn((i64, u16)) -> bool {
    |g: (i64, u16)| g.0 == user
}

/// The mathematical in-memory store. Grants are in the order they were made.
#[verifier::ext_equal]
pub struct MemView {
    pub last_id: i64,
    pub tokens: Map<Seq<char>, i64>,
    pub users: Map<i64, Seq<char>>,
    pub hosts: Seq<(i64, Seq<char>)>,
    pub ports: Seq<(i64, u16)>,
}

impl MemView {
    /// No grant is listed twice, no id is beyond the last one given, and every
    /// token names a stored user.
    pub open spec fn wf(self) -> bool {
        &&& self.hosts.no_duplicates()
        &&& self.ports.no_duplicates()
        &&& forall|id: i64| #[trigger] self.users.dom().contains(id) ==> id <= self.last_id
        &&& forall|t: Seq<char>| #[trigger]
            self.tokens.dom().contains(t) ==> self.users.dom().contains(self.tokens[t])
    }

    /// The store with one more user, under the next id.
    pub open spec fn with_user(self, name: Seq<char>, token: Seq<char>) -> Self {
        let id = (self.last_id + 1) as i64;
        MemView {
            last_id: id,
            tokens: self.tokens.insert(token, id),
            users: self.users.insert(id, name),
            ..self
        }
    }

    pub open spec fn who(self, token: Seq<char>) -> Option<WhoView> {
        if self.tokens.dom().contains(token) && self.users.dom().contains(self.tokens[token]) {
            Some(WhoView { user_id: self.tokens[token], name: self.users[self.tokens[token]] })
        } else {
            None
        }
    }

    pub open spec fn with_host(self, user: i64, host: Seq<char>) -> Self {
        if self.hosts.contains((user, host)) {
            self
        } else {
            MemView { hosts: self.hosts.push((user, host)), ..self }
        }
    }

    pub open spec fn with_port(self, user: i64, port: u16) -> Self {
        if self.ports.contains((user, port)) {
            self
        } else {
            MemView { ports: self.ports.push((user, port)), ..self }
        }
    }

    pub open spec fn owned_count(self, user: i64) -> nat {
        self.hosts.filter(host_grant_of(user)).len() + self.ports.filter(port_grant_of(user)).len()
    }

    /// Some user owns this hostname.
    pub open spec fn taken(self, host: Seq<char>) -> bool {
        exists|i: int| 0 <= i < self.hosts.len() && (#[trigger] self.hosts[i]).1 == host
    }

    pub open spec fn claim(self, user: i64, host: Seq<char>, max: Option<i64>) -> (Self, ClaimView) {
        if self.hosts.contains((user, host)) {
            (self, ClaimView::Owned)
        } else if self.taken(host) {
            (self, ClaimView::Taken)
        } else if max is Some && self.owned_count(user) >= max->0 {
            (self, ClaimView::CapExceeded)
        } else {
            (self.with_host(user, host), ClaimView::Owned)
        }
    }
}

/// An in-memory [`Authenticator`]. It stores fully-qualified hostnames.
pub struct MemoryAuth {
    last_id: i64,
    tokens: Table<String, i64>,
    users: Table<i64, String>,
    hosts: Vec<(i64, String)>,
    ports: Vec<(i64, u16)>,
}

/// Views of a list of hostname grants.
pub open spec fn grants(v: Seq<(i64, String)>) -> Seq<(i64, Seq<char>)> {
    v.map_values(|g: (i64, String)| (g.0, g.1@))
}

/// Views of the values of a map.
pub open spec fn map_views(m: Map<i64, String>) -> Map<i64, Seq<char>> {
    Map::new(|k: i64| m.dom().contains(k), |k: i64| m[k]@)
}

impl View for MemoryAuth {
    type V = MemView;

    closed spec fn view(&self) -> MemView {
        MemView {
            last_id: self.last_id,
            tokens: self.tokens@,
            users: map_views(self.users@),
            hosts: grants(self.hosts@),
            ports: self.ports@,
        }
    }
}

impl MemoryAuth {
    /// The tables hold each key once.
    pub closed spec fn tables_wf(&self) -> bool {
        self.tokens.wf() && self.users.wf()
    }

    /// The tables are sound and so is what they hold.
    pub open spec fn wf(&self) -> bool {
        self.tables_wf() && self@.wf()
    }

    /// An empty store.
    pub fn new() -> (r: Self)
        ensures
            r.wf(),
            r@ == (MemView {
                last_id: 0,
                tokens: Map::empty(),
                users: Map::empty(),
                hosts: Seq::empty(),
                ports: Seq::empty(),
            }),
    {
        let r = MemoryAuth {
            last_id: 0,
            tokens: Table::new(),
            users: Table::new(),
            hosts: Vec::new(),
            ports: Vec::new(),
        };
        assert(r@ =~= (MemView {
            last_id: 0,
            tokens: Map::empty(),
            users: Map::empty(),
            hosts: Seq::empty(),
            ports: Seq::empty(),
        }));
        r
    }

    /// Create a user with a bearer token and return its id.
    pub fn add_user(&mut self, name: &str, token: &str) -> (r: i64)
        requires
            old(self).wf(),
            old(self)@.last_id < i64::MAX,
        ensures
            final(self).wf(),
            r == old(self)@.last_id + 1,
            final(self)@ == old(self)@.with_user(name@, token@),
    {
        let ghost before = self@;
        self.last_id = self.last_id + 1;
        let id: i64 = self.last_id;
        let _ = self.users.insert(id, name.to_owned());
        let _ = self.tokens.insert(token.to_owned(), id);
        assert(self@.users =~= before.users.insert(id, name@));
        assert(self@ =~= before.with_user(name@, token@));
        id
    }

    /// Whether a hostname is granted to a user.
    fn has_host(&self, user_id: i64, hostname: &str) -> (r: bool)
        ensures
            r == self@.hosts.contains((user_id, hostname@)),
    {
        let mut i: usize = 0;
        while i < self.hosts.len()
            invariant
                i <= self.hosts@.len(),
                forall|j: int| 0 <= j < i ==> self@.hosts[j] != (user_id, hostname@),
            decreases self.hosts@.len() - i,
        {
            if self.hosts[i].0 == user_id && text::same(self.hosts[i].1.as_str(), hostname) {
                assert(self@.hosts[i as int] == (user_id, hostname@));
                return true;
            }
            i += 1;
        }
        false
    }

    /// Grant a fully-qualified hostname to a user.
    pub fn grant_hostname(&mut self, user_id: i64, hostname: &str)
        requires
            old(self).wf(),
        ensures
            final(self).wf(),
            final(self)@ == old(self)@.with_host(user_id, hostname@),
    {
        let ghost before = self@;
        if !self.has_host(user_id, hostname) {
            self.hosts.push((user_id, hostname.to_owned()));
            assert(self@.hosts =~= before.hosts.push((user_id, hostname@)));
            assert(self@ =~= before.with_host(user_id, hostname@));
        }
    }

    /// Whether a port is granted to a user.
    fn has_port(&self, user_id: i64, port: u16) -> (r: bool)
        ensures
            r == self@.ports.contains((user_id, port)),
    {
        let mut i: usize = 0;
        while i < self.ports.len()
            invariant
                i <= self.ports@.len(),
                forall|j: int| 0 <= j < i ==> self@.ports[j] != (user_id, port),
            decreases self.ports@.len() - i,
        {
            if self.ports[i].0 == user_id && self.ports[i].1 == port {
                assert(self@.ports[i as int] == (user_id, port));
                return true;
            }
            i += 1;
        }
        false
    }

    /// Grant a public TCP port to a user.
    pub fn grant_port(&mut self, user_id: i64, port: u16)
        requires
            old(self).wf(),
        ensures
            final(self).wf(),
            final(self)@ == old(self)@.with_port(user_id, port),
    {
        let ghost before = self@;
        if !self.has_port(user_id, port) {
            self.ports.push((user_id, port));
            assert(self@ =~= before.with_port(user_id, port));
        }
    }

    /// Revoke a token; the answer is whether it was known.
    pub fn revoke(&mut self, token: &str) -> (r: bool)
        requires
            old(self).wf(),
        ensures
            final(self).wf(),
            r == old(self)@.tokens.dom().contains(token@),
            final(self)@ == (MemView { tokens: old(self)@.tokens.remove(token@), ..old(self)@ }),
    {
        let ghost before = self@;
        let r = self.tokens.remove(&token.to_owned()).is_some();
        assert(self@ =~= (MemView { tokens: before.tokens.remove(token@), ..before }));
        r
    }

    /// Whether any user owns this hostname.
    fn is_taken(&self, hostname: &str) -> (r: bool)
        ensures
            r == self@.taken(hostname@),
    {
        let mut i: usize = 0;
        while i < self.hosts.len()
            invariant
                i <= self.hosts@.len(),
                forall|j: int| 0 <= j < i ==> (#[trigger] self@.hosts[j]).1 != hostname@,
            decreases self.hosts@.len() - i,
        {
            if text::same(self.hosts[i].1.as_str(), hostname) {
                assert(self@.hosts[i as int].1 == hostname@);
                return true;
            }
            i += 1;
        }
        false
    }

    /// Number of grants of a user.
    fn owned(&self, user_id: i64) -> (r: i128)
        ensures
            r == self@.owned_count(user_id),
    {
        let hs = self.hosts_list(user_id);
        let ps = self.ports_list(user_id);
        assert(frames::names(hs@).len() == hs@.len());
        hs.len() as i128 + ps.len() as i128
    }

    /// Hostnames of a user, in the order they were granted.
    fn hosts_list(&self, user_id: i64) -> (r: Vec<String>)
        ensures
            frames::names(r@) == self@.hosts.filter(host_grant_of(user_id)).map_values(
                |g: (i64, Seq<char>)| g.1,
            ),
    {
        let ghost s = self@.hosts;
        let ghost p = host_grant_of(user_id);
        let ghost f = |g: (i64, Seq<char>)| g.1;
        let mut out: Vec<String> = Vec::new();
        let mut i: usize = 0;
        proof {
            reveal(Seq::filter);
            assert(s.take(0) =~= Seq::<(i64, Seq<char>)>::empty());
            assert(frames::names(out@) =~= s.take(0).filter(p).map_values(f));
        }
        while i < self.hosts.len()
            invariant
                i <= self.hosts@.len(),
                s == self@.hosts,
                p == host_grant_of(user_id),
                f == (|g: (i64, Seq<char>)| g.1),
                frames::names(out@) == s.take(i as int).filter(p).map_values(f),
            decreases self.hosts@.len() - i,
        {
            let ghost done = out@;
            proof {
                rows::lemma_filter_step(s, p, i as int);
            }
            if self.hosts[i].0 == user_id {
                let h = self.hosts[i].1.clone();
                out.push(h);
                assert(frames::names(out@) =~= frames::names(done).push(h@));
                assert(frames::names(out@) =~= s.take(i + 1).filter(p).map_values(f));
            }
            i += 1;
        }
        assert(s.take(i as int) =~= s);
        out
    }

    /// Ports of a user, in the order they were granted.
    fn ports_list(&self, user_id: i64) -> (r: Vec<u16>)
        ensures
            r@ == self@.ports.filter(port_grant_of(user_id)).map_values(|g: (i64, u16)| g.1),
    {
        let ghost s = self@.ports;
        let ghost p = port_grant_of(user_id);
        let ghost f = |g: (i64, u16)| g.1;
        let mut out: Vec<u16> = Vec::new();
        let mut i: usize = 0;
        proof {
            reveal(Seq::filter);
            assert(s.take(0) =~= Seq::<(i64, u16)>::empty());
            assert(out@ =~= s.take(0).filter(p).map_values(f));
        }
        while i < self.ports.len()
            invariant
                i <= self.ports@.len(),
                s == self@.ports,
                p == port_grant_of(user_id),
                f == (|g: (i64, u16)| g.1),
                out@ == s.take(i as int).filter(p).map_values(f),
            decreases self.ports@.len() - i,
        {
            proof {
                rows::lemma_filter_step(s, p, i as int);
            }
            if self.ports[i].0 == user_id {
                out.push(self.ports[i].1);
                assert(out@ =~= s.take(i + 1).filter(p).map_values(f));
            }
            i += 1;
        }
        assert(s.take(i as int) =~= s);
        out
    }
}

impl Authenticator for MemoryAuth {
    open spec fn inv(&self) -> bool {
        self.wf()
    }

    open spec fn who(v: MemView, token: Seq<char>) -> Option<WhoView> {
        v.who(token)
    }

    open spec fn owns_host(v: MemView, user: i64, host: Seq<char>) -> bool {
        v.hosts.contains((user, host))
    }

    open spec fn owns_tcp(v: MemView, user: i64, port: u16) -> bool {
        v.ports.contains((user, port))
    }

    open spec fn claim_step(
        v: MemView,
        user: i64,
        host: Seq<char>,
        max: Option<i64>,
        now: i64,
    ) -> (MemView, ClaimView) {
        v.claim(user, host, max)
    }

    open spec fn release_host_step(v: MemView, user: i64, host: Seq<char>) -> (MemView, bool) {
        (
            MemView {
                hosts: v.hosts.filter(|g: (i64, Seq<char>)| g != (user, host)),
                ..v
            },
            v.hosts.contains((user, host)),
        )
    }

    open spec fn release_port_step(v: MemView, user: i64, port: u16) -> (MemView, bool) {
        (
            MemView { ports: v.ports.filter(|g: (i64, u16)| g != (user, port)), ..v },
            v.ports.contains((user, port)),
        )
    }

    open spec fn hosts_of(v: MemView, user: i64) -> Seq<Seq<char>> {
        v.hosts.filter(host_grant_of(user)).map_values(|g: (i64, Seq<char>)| g.1)
    }

    open spec fn ports_of(v: MemView, user: i64) -> Seq<u16> {
        v.ports.filter(port_grant_of(user)).map_values(|g: (i64, u16)| g.1)
    }

    fn authenticate(&self, token: &str) -> (r: Option<AuthedUser>) {
        match self.tokens.get(&token.to_owned()) {
            None => None,
            Some(id) => match self.users.get(id) {
                None => None,
                Some(name) => Some(AuthedUser { user_id: *id, name: name.clone() }),
            },
        }
    }

    fn owns_hostname(&self, user_id: i64, hostname: &str) -> (r: bool) {
        self.has_host(user_id, hostname)
    }

    fn owns_port(&self, user_id: i64, port: u16) -> (r: bool) {
        self.has_port(user_id, port)
    }

    /// A free hostname is registered to the claimant; one it owns stays its
    /// own; one of another user is refused.
    fn claim_hostname(&mut self, user_id: i64, hostname: &str, max: Option<i64>, now: i64) -> (r:
        ClaimOutcome) {
        if self.has_host(user_id, hostname) {
            return ClaimOutcome::Owned;
        }
        if self.is_taken(hostname) {
            return ClaimOutcome::Taken;
        }
        match max {
            Some(m) => {
                if self.owned(user_id) >= m as i128 {
                    return ClaimOutcome::CapExceeded;
                }
            },
            None => {},
        }
        self.grant_hostname(user_id, hostname);
        ClaimOutcome::Owned
    }

    fn release_hostname(&mut self, user_id: i64, hostname: &str) -> (r: bool) {
        let ghost before = self@;
        let ghost p = |g: (i64, Seq<char>)| g != (user_id, hostname@);
        let r = self.has_host(user_id, hostname);
        let mut kept: Vec<(i64, String)> = Vec::new();
        let mut i: usize = 0;
        proof {
            reveal(Seq::filter);
            assert(before.hosts.take(0) =~= Seq::<(i64, Seq<char>)>::empty());
            assert(grants(kept@) =~= before.hosts.take(0).filter(p));
        }
        while i < self.hosts.len()
            invariant
                i <= self.hosts@.len(),
                self.wf(),
                self@ == before,
                p == (|g: (i64, Seq<char>)| g != (user_id, hostname@)),
                grants(kept@) == before.hosts.take(i as int).filter(p),
            decreases self.hosts@.len() - i,
        {
            let ghost done = kept@;
            proof {
                rows::lemma_filter_step(before.hosts, p, i as int);
            }
            let g = &self.hosts[i];
            if g.0 != user_id || !text::same(g.1.as_str(), hostname) {
                let one = (g.0, g.1.clone());
                kept.push(one);
                assert(grants(kept@) =~= grants(done).push((one.0, one.1@)));
            }
            i += 1;
        }
        self.hosts = kept;
        proof {
            assert(before.hosts.take(i as int) =~= before.hosts);
            assert(self@ =~= (MemView { hosts: before.hosts.filter(p), ..before }));
            lemma_filter_distinct(before.hosts, p);
        }
        r
    }

    fn release_port(&mut self, user_id: i64, port: u16) -> (r: bool) {
        let ghost before = self@;
        let ghost p = |g: (i64, u16)| g != (user_id, port);
        let r = self.has_port(user_id, port);
        let mut kept: Vec<(i64, u16)> = Vec::new();
        let mut i: usize = 0;
        proof {
            reveal(Seq::filter);
            assert(before.ports.take(0) =~= Seq::<(i64, u16)>::empty());
            assert(kept@ =~= before.ports.take(0).filter(p));
        }
        while i < self.ports.len()
            invariant
                i <= self.ports@.len(),
                self.wf(),
                self@ == before,
                p == (|g: (i64, u16)| g != (user_id, port)),
                kept@ == before.ports.take(i as int).filter(p),
            decreases self.ports@.len() - i,
        {
            proof {
                rows::lemma_filter_step(before.ports, p, i as int);
            }
            let g = self.ports[i];
            if g.0 != user_id || g.1 != port {
                kept.push(g);
            }
            i += 1;
        }
        self.ports = kept;
        proof {
            assert(before.ports.take(i as int) =~= before.ports);
            assert(self@ =~= (MemView { ports: before.ports.filter(p), ..before }));
            lemma_filter_distinct(before.ports, p);
        }
        r
    }

    fn owned_hostnames(&self, user_id: i64) -> (r: Vec<String>) {
        self.hosts_list(user_id)
    }

    fn owned_ports(&self, user_id: i64) -> (r: Vec<u16>) {
        self.ports_list(user_id)
    }
}

/// Filtering introduces no duplicates.
proof fn lemma_filter_distinct<A>(s: Seq<A>, p: spec_fn(A) -> bool)
    requires
        s.no_duplicates(),
    ensures
        s.filter(p).no_duplicates(),
{
    let f = s.filter(p);
    assert forall|i: int, j: int| 0 <= i < f.len() && 0 <= j < f.len() && i != j implies f[i]
        != f[j] by {
        let lo = if i < j {
            i
        } else {
            j
        };
        let hi = if i < j {
            j
        } else {
            i
        };
        rows::lemma_filter_positions(s, p, lo, hi);
    }
}

/// A new user's token authenticates as that user, and every other token
/// authenticates as before.
pub proof fn new_user_spares_other_tokens(v: MemView, name: Seq<char>, token: Seq<char>)
    requires
        v.wf(),
        v.last_id < i64::MAX,
    ensures
        v.with_user(name, token).wf(),
        v.with_user(name, token).who(token) == Some(
            WhoView { user_id: (v.last_id + 1) as i64, name },
        ),
        forall|other: Seq<char>|
            other != token ==> #[trigger] v.with_user(name, token).who(other) == v.who(other),
{
}

/// Claiming a hostname: one's own stays one's own, another's is taken, a free
/// one becomes the claimant's unless the cap is reached. Only the last changes
/// anything, and only by that one grant.
pub proof fn free_hostname_goes_to_the_claimant(
    v: MemView,
    user: i64,
    host: Seq<char>,
    max: Option<i64>,
)
    ensures
        ({
            let (w, out) = v.claim(user, host, max);
            let mine = v.hosts.contains((user, host));
            let had = exists|i: int| 0 <= i < v.hosts.len() && (#[trigger] v.hosts[i]).1 == host;
            let full = max is Some && v.owned_count(user) >= max->0;
            &&& out == ClaimView::Owned <==> mine || (!had && !full)
            &&& out == ClaimView::Taken <==> !mine && had
            &&& out == ClaimView::CapExceeded <==> !mine && !had && full
            &&& mine || had || full ==> w == v
            &&& !mine && !had && !full ==> w.hosts == v.hosts.push((user, host)) && w.ports
                == v.ports && w.users == v.users && w.tokens == v.tokens
        }),
{
}

/// What a user has counts hostnames and ports alike.
pub proof fn grants_count_alike(v: MemView, user: i64, other: i64, host: Seq<char>, port: u16)
    requires
        other != user,
        !v.hosts.contains((user, host)),
        !v.ports.contains((user, port)),
    ensures
        v.with_host(user, host).owned_count(user) == v.owned_count(user) + 1,
        v.with_port(user, port).owned_count(user) == v.owned_count(user) + 1,
        v.with_host(user, host).owned_count(other) == v.owned_count(other),
        v.with_port(user, port).owned_count(other) == v.owned_count(other),
{
    reveal(Seq::filter);
    assert(v.hosts.push((user, host)).drop_last() =~= v.hosts);
    assert(v.ports.push((user, port)).drop_last() =~= v.ports);
}

/// A grant is given up by whoever has it, and no other goes with it.
pub proof fn given_up_grant_is_gone(v: MemView, user: i64, host: Seq<char>, port: u16, u: i64)
    ensures
        ({
            let (w, had) = MemoryAuth::release_host_step(v, user, host);
            &&& had == v.hosts.contains((user, host))
            &&& forall|h: Seq<char>|
                #![trigger w.hosts.contains((u, h))]
                w.hosts.contains((u, h)) <==> v.hosts.contains((u, h)) && (u, h) != (user, host)
            &&& w.ports == v.ports && w.users == v.users && w.tokens == v.tokens
        }),
        ({
            let (w, had) = MemoryAuth::release_port_step(v, user, port);
            &&& had == v.ports.contains((user, port))
            &&& forall|p: u16|
                #![trigger w.ports.contains((u, p))]
                w.ports.contains((u, p)) <==> v.ports.contains((u, p)) && (u, p) != (user, port)
            &&& w.hosts == v.hosts && w.users == v.users && w.tokens == v.tokens
        }),
{
    let p = |g: (i64, Seq<char>)| g != (user, host);
    let q = |g: (i64, u16)| g != (user, port);
    assert forall|h: Seq<char>|
        #![trigger v.hosts.filter(p).contains((u, h))]
        v.hosts.filter(p).contains((u, h)) <==> v.hosts.contains((u, h)) && (u, h) != (
            user,
            host,
        ) by {
        lemma_filter_has(v.hosts, p, (u, h));
    }
    assert forall|n: u16|
        #![trigger v.ports.filter(q).contains((u, n))]
        v.ports.filter(q).contains((u, n)) <==> v.ports.contains((u, n)) && (u, n) != (
            user,
            port,
        ) by {
        lemma_filter_has(v.ports, q, (u, n));
    }
}

proof fn lemma_filter_has<A>(s: Seq<A>, p: spec_fn(A) -> bool, x: A)
    ensures
        s.filter(p).contains(x) <==> s.contains(x) && p(x),
{
    if s.filter(p).contains(x) {
        let i = choose|i: int| 0 <= i < s.filter(p).len() && s.filter(p)[i] == x;
        rows::lemma_filter_source(s, p, i);
    }
    if s.contains(x) && p(x) {
        let i = choose|i: int| 0 <= i < s.len() && s[i] == x;
        s.lemma_filter_contains(p, i);
    }
}

/// What a user has is listed in full, and nothing of anybody else's.
pub proof fn granted_set_is_complete(v: MemView, user: i64, host: Seq<char>, port: u16)
    ensures
        MemoryAuth::hosts_of(v, user).contains(host) <==> v.hosts.contains((user, host)),
        MemoryAuth::ports_of(v, user).contains(port) <==> v.ports.contains((user, port)),
        MemoryAuth::owns_host(v, user, host) <==> v.hosts.contains((user, host)),
        MemoryAuth::owns_tcp(v, user, port) <==> v.ports.contains((user, port)),
{
    let hs = v.hosts.filter(host_grant_of(user));
    let ps = v.ports.filter(port_grant_of(user));
    let hn = MemoryAuth::hosts_of(v, user);
    let pn = MemoryAuth::ports_of(v, user);
    lemma_filter_has(v.hosts, host_grant_of(user), (user, host));
    lemma_filter_has(v.ports, port_grant_of(user), (user, port));
    if hn.contains(host) {
        let k = choose|k: int| 0 <= k < hn.len() && hn[k] == host;
        rows::lemma_filter_source(v.hosts, host_grant_of(user), k);
        assert(hs[k] == (user, host));
    }
    if hs.contains((user, host)) {
        let k = choose|k: int| 0 <= k < hs.len() && hs[k] == (user, host);
        assert(hn[k] == host);
    }
    if pn.contains(port) {
        let k = choose|k: int| 0 <= k < pn.len() && pn[k] == port;
        rows::lemma_filter_source(v.ports, port_grant_of(user), k);
        assert(ps[k] == (user, port));
    }
    if ps.contains((user, port)) {
        let k = choose|k: int| 0 <= k < ps.len() && ps[k] == (user, port);
        assert(pn[k] == port);
    }
}

/// A token stands for the user it was given to, until it is revoked.
pub proof fn token_stands_for_its_user(v: MemView, token: Seq<char>, other: Seq<char>)
    requires
        v.wf(),
    ensures
        v.tokens.dom().contains(token) ==> v.who(token) == Some(
            WhoView { user_id: v.tokens[token], name: v.users[v.tokens[token]] },
        ),
        !v.tokens.dom().contains(token) ==> v.who(token) is None,
        (MemView { tokens: v.tokens.remove(token), ..v }).who(token) is None,
        other != token ==> (MemView { tokens: v.tokens.remove(token), ..v }).who(other) == v.who(
            other,
        ),
{
}

} // verus!
