//! The hostname and token registry.
//!
//! Holds users, their bearer tokens (kept only as digests), and the hostname
//! labels and TCP ports they own. Labels are stored without the apex, so the
//! base domain can change without touching the rows.
//!
//! Every operation is a step on [`RegistryView`]: a spec function from the
//! state before to the state after and the answer. Operations that read the
//! clock or draw a secret come in two forms, one that takes what was read as an
//! argument and one that reads it.
use vstd::prelude::*;

use crate::order;
use crate::proto::frames;
use crate::relay::clock::now_unix;
use crate::relay::crypto;
use crate::relay::label;
use crate::relay::ledger;
use crate::relay::ledger::{DbFault, ErrView, RegistryView, TokenRowView, WhoView};
use crate::relay::rows;
use crate::relay::auth::{AuthedUser, Authenticator, ClaimOutcome, ClaimView};
use crate::relay::rows::{HostRow, HostView, PortRow, PortView, Row, Slot, TokenRec, TokenView, UserRow, UserView};
use crate::text;

verus! {

/// Errors from registry operations.
#[derive(Debug)]
pub enum RegistryError {
    Db(DbFault),
    NoSuchUser(String),
    UserExists(String),
    UserNotEmpty(String),
    InvalidLabel(String, &'static str),
    LabelTaken(String),
    PortTaken(u16),
    CapExceeded,
}

impl View for RegistryError {
    type V = ErrView;

    open spec fn view(&self) -> ErrView {
        match self {
            RegistryError::Db(f) => ErrView::Db(*f),
            RegistryError::NoSuchUser(n) => ErrView::NoSuchUser(n@),
            RegistryError::UserExists(n) => ErrView::UserExists(n@),
            RegistryError::UserNotEmpty(n) => ErrView::UserNotEmpty(n@),
            RegistryError::InvalidLabel(l, why) => ErrView::InvalidLabel(l@, why@),
            RegistryError::LabelTaken(l) => ErrView::LabelTaken(l@),
            RegistryError::PortTaken(p) => ErrView::PortTaken(*p),
            RegistryError::CapExceeded => ErrView::CapExceeded,
        }
    }
}

impl RegistryError {
    /// The text shown to people.
    pub fn message(&self) -> (r: String)
        ensures
            r@ == self@.message(),
    {
        match self {
            RegistryError::Db(f) => match f {
                DbFault::DuplicateToken => "database error: duplicate token digest".to_owned(),
                DbFault::NoIdLeft => "database error: no row id left".to_owned(),
                DbFault::BadRows => "database error: rows contradict each other".to_owned(),
                DbFault::TooMany => "database error: integer overflow".to_owned(),
            },
            RegistryError::NoSuchUser(n) => text::join2("no such user: ", n.as_str()),
            RegistryError::UserExists(n) => text::join3("user ", n.as_str(), " already exists"),
            RegistryError::UserNotEmpty(n) => text::join3(
                "user ",
                n.as_str(),
                " still owns tokens/hostnames/ports (use --force)",
            ),
            RegistryError::InvalidLabel(l, why) => {
                let mut s = text::join3("invalid label '", l.as_str(), "': ");
                s.append(*why);
                s
            },
            RegistryError::LabelTaken(l) => text::join3("label '", l.as_str(), "' is already taken"),
            RegistryError::PortTaken(p) => text::join3(
                "port ",
                text::decimal_u64(*p as u64).as_str(),
                " is reserved by another user",
            ),
            RegistryError::CapExceeded =>
                "tunnel cap reached: already owns the maximum number of resources".to_owned(),
        }
    }
}

/// View of an operation's answer.
pub open spec fn answer<T>(r: Result<T, RegistryError>) -> Result<T, ErrView> {
    match r {
        Ok(v) => Ok(v),
        Err(e) => Err(e@),
    }
}

/// A row of the token list.
#[derive(Debug)]
pub struct TokenRow {
    pub id: i64,
    pub user: String,
    pub label: Option<String>,
    pub created_at: i64,
    pub revoked: bool,
}

impl View for TokenRow {
    type V = TokenRowView;

    open spec fn view(&self) -> TokenRowView {
        TokenRowView {
            id: self.id,
            user: self.user@,
            label: rows::opt_view(self.label),
            created_at: self.created_at,
            revoked: self.revoked,
        }
    }
}


/// Generate a fresh bearer token: `etun_` and 32 random bytes in URL-safe
/// base64.
pub fn generate_token() -> (r: String)
    ensures
        ledger::minted(r@),
{
    let secret = crypto::random_secret();
    let t = token_of(&secret);
    assert(secret@.len() == 32);
    t
}

/// The token text made of a secret.
fn token_of(secret: &[u8; 32]) -> (r: String)
    ensures
        r@ == ledger::token_text(secret@),
{
    let tail = crypto::base64_url_of(secret);
    text::join2("etun_", tail.as_str())
}

/// The digest under which a token is stored.
pub fn hash_token(token: &str) -> (r: Vec<u8>)
    ensures
        r@ == ledger::token_digest(token@),
        r@.len() == 32,
{
    crypto::sha256_of(token.as_bytes())
}

/// A copy of an optional string.
fn dup_opt(o: &Option<String>) -> (r: Option<String>)
    ensures
        rows::opt_view(r) == rows::opt_view(*o),
{
    match o {
        Some(s) => Some(s.clone()),
        None => None,
    }
}

/// Users, tokens, hostnames and ports of one relay.
pub struct Registry {
    domain: String,
    users: Vec<UserRow>,
    tokens: Vec<TokenRec>,
    hosts: Vec<HostRow>,
    ports: Vec<PortRow>,
}

impl View for Registry {
    type V = RegistryView;

    closed spec fn view(&self) -> RegistryView {
        RegistryView {
            domain: self.domain@,
            users: order::views(self.users@),
            tokens: order::views(self.tokens@),
            hosts: order::views(self.hosts@),
            ports: order::views(self.ports@),
        }
    }
}

impl Registry {
    /// The rows are consistent.
    pub open spec fn wf(&self) -> bool {
        self@.wf()
    }

    /// A registry without rows, for `domain`.
    pub fn open_in_memory(domain: &str) -> (r: Result<Self, RegistryError>)
        ensures
            r is Ok,
            r->Ok_0.wf(),
            r->Ok_0@ == RegistryView::empty(domain@),
    {
        let reg = Registry {
            domain: domain.to_owned(),
            users: Vec::new(),
            tokens: Vec::new(),
            hosts: Vec::new(),
            ports: Vec::new(),
        };
        assert(reg@ =~= RegistryView::empty(domain@));
        Ok(reg)
    }

    /// A registry of stored rows; refuses rows that contradict each other.
    pub fn from_rows(
        domain: &str,
        users: Vec<UserRow>,
        tokens: Vec<TokenRec>,
        hosts: Vec<HostRow>,
        ports: Vec<PortRow>,
    ) -> (r: Result<Self, RegistryError>)
        ensures
            ({
                let v = RegistryView {
                    domain: domain@,
                    users: order::views(users@),
                    tokens: order::views(tokens@),
                    hosts: order::views(hosts@),
                    ports: order::views(ports@),
                };
                match r {
                    Ok(reg) => v.wf() && reg@ == v,
                    Err(e) => !v.wf() && e@ == ErrView::Db(DbFault::BadRows),
                }
            }),
    {
        let reg = Registry { domain: domain.to_owned(), users, tokens, hosts, ports };
        if reg.check_rows() {
            Ok(reg)
        } else {
            Err(RegistryError::Db(DbFault::BadRows))
        }
    }

    /// Whether the rows are consistent.
    fn check_rows(&self) -> (r: bool)
        ensures
            r == self@.wf(),
    {
        rows::check_pairwise(&self.users) && rows::check_pairwise(&self.tokens)
            && rows::check_pairwise(&self.hosts) && rows::check_pairwise(&self.ports)
            && self.check_owners(&self.tokens) && self.check_owners(&self.hosts)
            && self.check_owners(&self.ports)
    }

    /// Whether every row belongs to a stored user.
    fn check_owners<T: Row>(&self, v: &Vec<T>) -> (r: bool)
        ensures
            r == (forall|i: int|
                0 <= i < v@.len() ==> self@.has_user_id(
                    T::owner(#[trigger] order::views(v@)[i]),
                )),
    {
        let mut i: usize = 0;
        while i < v.len()
            invariant
                i <= v@.len(),
                forall|j: int|
                    0 <= j < i ==> self@.has_user_id(T::owner(#[trigger] order::views(v@)[j])),
            decreases v@.len() - i,
        {
            let id: i64 = v[i].owner_id();
            assert(T::owner(order::views(v@)[i as int]) == id);
            if !self.knows_id(id) {
                return false;
            }
            i += 1;
        }
        true
    }

    /// Whether a user of this id is stored.
    fn knows_id(&self, id: i64) -> (r: bool)
        ensures
            r == self@.has_user_id(id),
    {
        let mut i: usize = 0;
        while i < self.users.len()
            invariant
                i <= self.users@.len(),
                forall|j: int| 0 <= j < i ==> !#[trigger] ledger::is_user_id(self@.users, id, j),
            decreases self.users@.len() - i,
        {
            if self.users[i].id == id {
                assert(ledger::is_user_id(self@.users, id, i as int));
                return true;
            }
            i += 1;
        }
        assert forall|j: int| !#[trigger] ledger::is_user_id(self@.users, id, j) by {
            if 0 <= j < self@.users.len() {
                assert(j < i);
            }
        }
        false
    }

    /// The rows, for storing them.
    pub fn user_rows(&self) -> (r: &Vec<UserRow>)
        ensures
            order::views(r@) == self@.users,
    {
        &self.users
    }

    /// The rows, for storing them.
    pub fn token_rows(&self) -> (r: &Vec<TokenRec>)
        ensures
            order::views(r@) == self@.tokens,
    {
        &self.tokens
    }

    /// The rows, for storing them.
    pub fn host_rows(&self) -> (r: &Vec<HostRow>)
        ensures
            order::views(r@) == self@.hosts,
    {
        &self.hosts
    }

    /// The rows, for storing them.
    pub fn port_rows(&self) -> (r: &Vec<PortRow>)
        ensures
            order::views(r@) == self@.ports,
    {
        &self.ports
    }

    /// The base domain hostnames are composed under.
    pub fn domain(&self) -> (r: &str)
        ensures
            r@ == self@.domain,
    {
        self.domain.as_str()
    }

    /// Row of a user name.
    fn find_user(&self, name: &str) -> (r: Option<usize>)
        requires
            self.wf(),
        ensures
            match r {
                Some(i) => ledger::is_user(self@.users, name@, i as int) && self@.lookup(name@)
                    == Some(self@.users[i as int].id),
                None => !self@.has_user(name@) && self@.lookup(name@) is None,
            },
    {
        let mut i: usize = 0;
        while i < self.users.len()
            invariant
                i <= self.users@.len(),
                self.wf(),
                forall|j: int| 0 <= j < i ==> !#[trigger] ledger::is_user(self@.users, name@, j),
            decreases self.users@.len() - i,
        {
            if text::same(self.users[i].name.as_str(), name) {
                proof {
                    ledger::lemma_user(self@, name@, i as int);
                }
                return Some(i);
            }
            i += 1;
        }
        assert forall|j: int| !#[trigger] ledger::is_user(self@.users, name@, j) by {
            if 0 <= j < self@.users.len() {
                assert(j < i);
            }
        }
        None
    }

    /// Row of a label.
    fn find_host(&self, l: &str) -> (r: Option<usize>)
        requires
            self.wf(),
        ensures
            match r {
                Some(i) => ledger::is_host(self@.hosts, l@, i as int) && self@.has_label(l@)
                    && self@.host(l@) == self@.hosts[i as int],
                None => !self@.has_label(l@),
            },
    {
        let mut i: usize = 0;
        while i < self.hosts.len()
            invariant
                i <= self.hosts@.len(),
                self.wf(),
                forall|j: int| 0 <= j < i ==> !#[trigger] ledger::is_host(self@.hosts, l@, j),
            decreases self.hosts@.len() - i,
        {
            if text::same(self.hosts[i].label.as_str(), l) {
                proof {
                    ledger::lemma_host(self@, l@, i as int);
                }
                return Some(i);
            }
            i += 1;
        }
        assert forall|j: int| !#[trigger] ledger::is_host(self@.hosts, l@, j) by {
            if 0 <= j < self@.hosts.len() {
                assert(j < i);
            }
        }
        None
    }

    /// Row of a port.
    fn find_port(&self, p: u16) -> (r: Option<usize>)
        requires
            self.wf(),
        ensures
            match r {
                Some(i) => ledger::is_port(self@.ports, p, i as int) && self@.has_port(p)
                    && self@.port(p) == self@.ports[i as int],
                None => !self@.has_port(p),
            },
    {
        let mut i: usize = 0;
        while i < self.ports.len()
            invariant
                i <= self.ports@.len(),
                self.wf(),
                forall|j: int| 0 <= j < i ==> !#[trigger] ledger::is_port(self@.ports, p, j),
            decreases self.ports@.len() - i,
        {
            if self.ports[i].port == p {
                proof {
                    ledger::lemma_port(self@, p, i as int);
                }
                return Some(i);
            }
            i += 1;
        }
        assert forall|j: int| !#[trigger] ledger::is_port(self@.ports, p, j) by {
            if 0 <= j < self@.ports.len() {
                assert(j < i);
            }
        }
        None
    }

    /// Resolve a user name to its id.
    pub fn lookup_user_id(&self, name: &str) -> (r: Result<Option<i64>, RegistryError>)
        requires
            self.wf(),
        ensures
            answer(r) == Ok::<Option<i64>, ErrView>(self@.lookup(name@)),
    {
        match self.find_user(name) {
            Some(i) => Ok(Some(self.users[i].id)),
            None => Ok(None),
        }
    }

    /// Create a user at `now`.
    pub fn add_user_at(&mut self, name: &str, now: i64) -> (r: Result<i64, RegistryError>)
        requires
            old(self).wf(),
        ensures
            final(self).wf(),
            (final(self)@, answer(r)) == old(self)@.add_user(name@, now),
    {
        proof {
            ledger::lemma_add_user_wf(self@, name@, now);
        }
        let ghost before = self@;
        if self.find_user(name).is_some() {
            return Err(RegistryError::UserExists(name.to_owned()));
        }
        let n: usize = self.users.len();
        let id: i64 = if n == 0 {
            1
        } else {
            let last: i64 = self.users[n - 1].id;
            if last == i64::MAX {
                return Err(RegistryError::Db(DbFault::NoIdLeft));
            }
            last + 1
        };
        self.users.push(UserRow { id, name: name.to_owned(), created_at: now });
        assert(self@ =~= before.add_user(name@, now).0);
        Ok(id)
    }

    /// Create a user.
    pub fn add_user(&mut self, name: &str) -> (r: Result<i64, RegistryError>)
        requires
            old(self).wf(),
        ensures
            final(self).wf(),
            exists|now: i64| (final(self)@, answer(r)) == #[trigger] old(self)@.add_user(name@, now),
    {
        let now: i64 = now_unix();
        self.add_user_at(name, now)
    }

    /// Every user as id, name and creation time, by name.
    pub fn list_users(&self) -> (r: Result<Vec<(i64, String, i64)>, RegistryError>)
        requires
            self.wf(),
        ensures
            r is Ok,
            order::views(r->Ok_0@).to_multiset() == self@.users.map_values(
                |u: UserView| (u.id, u.name, u.created_at),
            ).to_multiset(),
            order::ascending::<(i64, String, i64)>(order::views(r->Ok_0@)),
    {
        let ghost f = |u: UserView| (u.id, u.name, u.created_at);
        let mut v: Vec<(i64, String, i64)> = Vec::new();
        let mut i: usize = 0;
        while i < self.users.len()
            invariant
                i <= self.users@.len(),
                f == (|u: UserView| (u.id, u.name, u.created_at)),
                order::views(v@) == self@.users.map_values(f).take(i as int),
            decreases self.users@.len() - i,
        {
            let ghost done = v@;
            let row = (self.users[i].id, self.users[i].name.clone(), self.users[i].created_at);
            v.push(row);
            i += 1;
            assert(order::views(v@) =~= order::views(done).push(row@));
            assert(order::views(v@) =~= self@.users.map_values(f).take(i as int));
        }
        assert(self@.users.map_values(f).take(i as int) =~= self@.users.map_values(f));
        Ok(order::sort(v))
    }

    /// Remove a user; one that still owns something only when forced.
    pub fn remove_user(&mut self, name: &str, force: bool) -> (r: Result<(), RegistryError>)
        requires
            old(self).wf(),
        ensures
            final(self).wf(),
            (final(self)@, answer(r)) == old(self)@.remove_user(name@, force),
    {
        let ghost before = self@;
        let id: i64 = match self.find_user(name) {
            Some(i) => self.users[i].id,
            None => return Err(RegistryError::NoSuchUser(name.to_owned())),
        };
        if !force && (rows::count_owned(&self.tokens, id) > 0 || rows::count_owned(&self.hosts, id)
            > 0 || rows::count_owned(&self.ports, id) > 0) {
            return Err(RegistryError::UserNotEmpty(name.to_owned()));
        }
        proof {
            ledger::lemma_without_user_wf(before, id);
        }
        rows::drop_owned(&mut self.tokens, id);
        rows::drop_owned(&mut self.hosts, id);
        rows::drop_owned(&mut self.ports, id);
        rows::drop_owned(&mut self.users, id);
        assert(self@ =~= before.without_user(id));
        Ok(())
    }

    /// The user of this name, created at `now` when absent.
    fn ensure_user(&mut self, name: &str, now: i64) -> (r: Result<(i64, bool), RegistryError>)
        requires
            old(self).wf(),
        ensures
            final(self).wf(),
            (final(self)@, answer(r)) == old(self)@.ensure_user(name@, now),
    {
        match self.find_user(name) {
            Some(i) => Ok((self.users[i].id, false)),
            None => match self.add_user_at(name, now) {
                Ok(id) => Ok((id, true)),
                Err(e) => Err(e),
            },
        }
    }

    /// Store a token of `user` under its digest.
    fn store_token(&mut self, user: i64, hash: Vec<u8>, label: Option<String>, now: i64) -> (r:
        Result<(), RegistryError>)
        requires
            old(self).wf(),
            old(self)@.has_user_id(user),
        ensures
            final(self).wf(),
            (final(self)@, answer(r)) == old(self)@.store_token(
                user,
                hash@,
                rows::opt_view(label),
                now,
            ),
    {
        let ghost before = self@;
        let ghost hv = hash@;
        let ghost lv = rows::opt_view(label);
        proof {
            ledger::lemma_store_token_wf(self@, user, hash@, rows::opt_view(label), now);
        }
        let n: usize = self.tokens.len();
        let mut i: usize = 0;
        while i < n
            invariant
                i <= n,
                n == self.tokens@.len(),
                hash@ == hv,
                self@ == before,
                before.wf(),
                forall|j: int| 0 <= j < i ==> (#[trigger] before.tokens[j]).hash != hv,
            decreases n - i,
        {
            if rows::same_bytes(&self.tokens[i].token_hash, &hash) {
                assert(before.tokens[i as int].hash == hv);
                return Err(RegistryError::Db(DbFault::DuplicateToken));
            }
            i += 1;
        }
        let id: i64 = if n == 0 {
            1
        } else {
            let last: i64 = self.tokens[n - 1].id;
            if last == i64::MAX {
                return Err(RegistryError::Db(DbFault::NoIdLeft));
            }
            last + 1
        };
        self.tokens.push(
            TokenRec { id, user_id: user, token_hash: hash, label, created_at: now, revoked_at: None },
        );
        assert(self@ =~= before.store_token(user, hv, lv, now).0);
        Ok(())
    }

    /// Create a token for a user of the given text, at `now`.
    pub fn create_token_with(
        &mut self,
        user: &str,
        label: Option<&str>,
        token: &str,
        now: i64,
    ) -> (r: Result<String, RegistryError>)
        requires
            old(self).wf(),
        ensures
            final(self).wf(),
            (final(self)@, text_answer(r)) == old(self)@.create_token(
                user@,
                str_opt(label),
                token@,
                now,
            ),
    {
        let id: i64 = match self.find_user(user) {
            Some(i) => {
                assert(ledger::is_user_id(self@.users, self@.users[i as int].id, i as int));
                self.users[i].id
            },
            None => return Err(RegistryError::NoSuchUser(user.to_owned())),
        };
        let l = match label {
            Some(s) => Some(s.to_owned()),
            None => None,
        };
        match self.store_token(id, hash_token(token), l, now) {
            Ok(_) => Ok(token.to_owned()),
            Err(e) => Err(e),
        }
    }

    /// Create a token for a user, returning the plaintext, shown once.
    pub fn create_token(&mut self, user: &str, label: Option<&str>) -> (r: Result<
        String,
        RegistryError,
    >)
        requires
            old(self).wf(),
        ensures
            final(self).wf(),
            exists|token: Seq<char>, now: i64|
                ledger::minted(token) && (final(self)@, text_answer(r))
                    == #[trigger] old(self)@.create_token(user@, str_opt(label), token, now),
    {
        let token = generate_token();
        let now: i64 = now_unix();
        self.create_token_with(user, label, token.as_str(), now)
    }

    /// Provision a user by name, created when absent, and store a token
    /// of the given text. The answer says whether the user was created.
    pub fn provision_user_token_with(&mut self, name: &str, token: &str, now: i64) -> (r:
        Result<(String, bool), RegistryError>)
        requires
            old(self).wf(),
        ensures
            final(self).wf(),
            (final(self)@, token_answer(r)) == old(self)@.provision(name@, token@, now),
    {
        proof {
            ledger::lemma_ensure_user_wf(self@, name@, now);
        }
        let (id, created) = match self.ensure_user(name, now) {
            Ok(p) => p,
            Err(e) => return Err(e),
        };
        let l = "self-serve".to_owned();
        match self.store_token(id, hash_token(token), Some(l), now) {
            Ok(_) => Ok((token.to_owned(), created)),
            Err(e) => Err(e),
        }
    }

    /// Provision a user by name and mint a fresh token, shown once. Tokens
    /// issued before stay valid.
    pub fn provision_user_token(&mut self, name: &str) -> (r: Result<(String, bool), RegistryError>)
        requires
            old(self).wf(),
        ensures
            final(self).wf(),
            exists|token: Seq<char>, now: i64|
                ledger::minted(token) && (final(self)@, token_answer(r))
                    == #[trigger] old(self)@.provision(name@, token, now),
    {
        let token = generate_token();
        let now: i64 = now_unix();
        self.provision_user_token_with(name, token.as_str(), now)
    }

    /// Revoke every valid token of `user`; the answer is how many there were.
    fn revoke_all(&mut self, user: i64, now: i64) -> (r: usize)
        requires
            old(self).wf(),
        ensures
            final(self).wf(),
            final(self)@ == old(self)@.revoke_all(user, now),
            r == old(self)@.tokens.filter(ledger::valid_of(user)).len(),
    {
        let ghost before = self@;
        let ghost p = ledger::valid_of(user);
        let n: usize = self.tokens.len();
        let mut count: usize = 0;
        let mut i: usize = 0;
        proof {
            reveal(Seq::filter);
            assert(before.tokens.take(0) =~= Seq::<TokenView>::empty());
        }
        while i < n
            invariant
                i <= n,
                n == self.tokens@.len(),
                n == before.tokens.len(),
                p == ledger::valid_of(user),
                count == before.tokens.take(i as int).filter(p).len(),
                count <= i,
                self@ == (RegistryView { tokens: self@.tokens, ..before }),
                forall|j: int|
                    0 <= j < n ==> #[trigger] self@.tokens[j] == (if j < i && p(before.tokens[j]) {
                        ledger::revoked(before.tokens[j], now)
                    } else {
                        before.tokens[j]
                    }),
            decreases n - i,
        {
            let ghost cur = self@.tokens;
            proof {
                rows::lemma_filter_step(before.tokens, p, i as int);
                assert(cur[i as int] == before.tokens[i as int]);
            }
            if self.tokens[i].user_id == user && self.tokens[i].revoked_at.is_none() {
                self.tokens[i].revoked_at = Some(now);
                count += 1;
                assert(self@.tokens =~= cur.update(
                    i as int,
                    ledger::revoked(before.tokens[i as int], now),
                ));
            }
            i += 1;
        }
        proof {
            assert(before.tokens.take(i as int) =~= before.tokens);
            assert(self@.tokens =~= before.revoke_all(user, now).tokens);
            assert(self@ =~= before.revoke_all(user, now));
            ledger::lemma_revoked_wf(before, self@);
        }
        count
    }

    /// Rotate a user's token at `now`: every valid token is revoked and one of
    /// the given text is stored. The answer says how many were revoked.
    pub fn rotate_user_token_with(&mut self, name: &str, token: &str, now: i64) -> (r: Result<
        (String, usize),
        RegistryError,
    >)
        requires
            old(self).wf(),
        ensures
            final(self).wf(),
            (final(self)@, token_answer(r)) == old(self)@.rotate(name@, token@, now),
    {
        proof {
            ledger::lemma_ensure_user_wf(self@, name@, now);
        }
        let (id, _) = match self.ensure_user(name, now) {
            Ok(p) => p,
            Err(e) => return Err(e),
        };
        let ghost mid = self@;
        let revoked: usize = self.revoke_all(id, now);
        proof {
            ledger::lemma_same_users(mid, self@);
        }
        let l = "self-serve-recovery".to_owned();
        match self.store_token(id, hash_token(token), Some(l), now) {
            Ok(_) => Ok((token.to_owned(), revoked)),
            Err(e) => Err(e),
        }
    }

    /// Rotate a user's bearer token: every valid token is revoked, then one
    /// fresh token is minted. The account is created when absent.
    pub fn rotate_user_token(&mut self, name: &str) -> (r: Result<(String, usize), RegistryError>)
        requires
            old(self).wf(),
        ensures
            final(self).wf(),
            exists|token: Seq<char>, now: i64|
                ledger::minted(token) && (final(self)@, token_answer(r))
                    == #[trigger] old(self)@.rotate(name@, token, now),
    {
        let token = generate_token();
        let now: i64 = now_unix();
        self.rotate_user_token_with(name, token.as_str(), now)
    }

    /// The labels `user` owns.
    fn labels_of(&self, user: i64) -> (r: Vec<String>)
        ensures
            frames::names(r@) == ledger::labels(rows::of_user::<HostRow>(self@.hosts, user)),
    {
        let ghost s = self@.hosts;
        let ghost p = rows::owned_by::<HostRow>(user);
        let mut out: Vec<String> = Vec::new();
        let mut i: usize = 0;
        proof {
            reveal(Seq::filter);
            assert(s.take(0) =~= Seq::<HostView>::empty());
            assert(frames::names(out@) =~= ledger::labels(s.take(0).filter(p)));
        }
        while i < self.hosts.len()
            invariant
                i <= self.hosts@.len(),
                s == self@.hosts,
                p == rows::owned_by::<HostRow>(user),
                frames::names(out@) == ledger::labels(s.take(i as int).filter(p)),
            decreases self.hosts@.len() - i,
        {
            let ghost done = out@;
            proof {
                rows::lemma_filter_step(s, p, i as int);
            }
            if self.hosts[i].user_id == user {
                let l = self.hosts[i].label.clone();
                out.push(l);
                assert(frames::names(out@) =~= frames::names(done).push(l@));
                assert(frames::names(out@) =~= ledger::labels(s.take(i + 1).filter(p)));
            }
            i += 1;
        }
        assert(s.take(i as int) =~= s);
        out
    }

    /// The ports `user` owns, ascending.
    fn numbers_of(&self, user: i64) -> (r: Vec<u16>)
        ensures
            r@ == ledger::port_numbers(rows::of_user::<PortRow>(self@.ports, user)),
    {
        let ghost s = self@.ports;
        let ghost p = rows::owned_by::<PortRow>(user);
        let mut out: Vec<u16> = Vec::new();
        let mut i: usize = 0;
        proof {
            reveal(Seq::filter);
            assert(s.take(0) =~= Seq::<PortView>::empty());
            assert(out@ =~= ledger::port_numbers(s.take(0).filter(p)));
        }
        while i < self.ports.len()
            invariant
                i <= self.ports@.len(),
                s == self@.ports,
                p == rows::owned_by::<PortRow>(user),
                out@ == ledger::port_numbers(s.take(i as int).filter(p)),
            decreases self.ports@.len() - i,
        {
            proof {
                rows::lemma_filter_step(s, p, i as int);
            }
            if self.ports[i].user_id == user {
                out.push(self.ports[i].port);
                assert(out@ =~= ledger::port_numbers(s.take(i + 1).filter(p)));
            }
            i += 1;
        }
        assert(s.take(i as int) =~= s);
        out
    }

    /// Release a user's hostnames, and with `release_ports` its ports too,
    /// back to the global pool. The user and its tokens are kept.
    pub fn release_user_hostnames(&mut self, name: &str, release_ports: bool) -> (r: Result<
        (Vec<String>, Vec<u16>),
        RegistryError,
    >)
        requires
            old(self).wf(),
        ensures
            final(self).wf(),
            (final(self)@, lists_answer(r)) == old(self)@.release(name@, release_ports),
    {
        let ghost before = self@;
        let id: i64 = match self.find_user(name) {
            Some(i) => self.users[i].id,
            None => return Err(RegistryError::NoSuchUser(name.to_owned())),
        };
        let hostnames = self.labels_of(id);
        proof {
            let every = |p: PortView| true;
            ledger::lemma_filtered_wf(before, rows::not_owned_by::<HostRow>(id), every);
            rows::lemma_filter_all(before.ports, every);
            ledger::lemma_filtered_wf(
                before,
                rows::not_owned_by::<HostRow>(id),
                rows::not_owned_by::<PortRow>(id),
            );
        }
        rows::drop_owned(&mut self.hosts, id);
        if release_ports {
            let ports = self.numbers_of(id);
            rows::drop_owned(&mut self.ports, id);
            assert(self@ =~= before.release(name@, release_ports).0);
            Ok((hostnames, ports))
        } else {
            assert(self@ =~= before.release(name@, release_ports).0);
            let none: Vec<u16> = Vec::new();
            assert(none@ =~= Seq::<u16>::empty());
            Ok((hostnames, none))
        }
    }

    /// Number of hostnames and ports `user_id` owns.
    fn owned(&self, user_id: i64) -> (r: i128)
        ensures
            r == self@.owned_count(user_id),
    {
        let a: usize = rows::count_owned(&self.hosts, user_id);
        let b: usize = rows::count_owned(&self.ports, user_id);
        a as i128 + b as i128
    }

    /// Count what `user_id` owns: hostnames and ports, not tokens.
    pub fn count_owned_resources(&self, user_id: i64) -> (r: Result<i64, RegistryError>)
        ensures
            match r {
                Ok(n) => n == self@.owned_count(user_id),
                Err(e) => self@.owned_count(user_id) > i64::MAX && e@ == ErrView::Db(
                    DbFault::TooMany,
                ),
            },
    {
        let n: i128 = self.owned(user_id);
        if n > i64::MAX as i128 {
            Err(RegistryError::Db(DbFault::TooMany))
        } else {
            Ok(n as i64)
        }
    }

    /// Register `label` to `user_id` if it is free, at `now`.
    pub fn claim_label_at(&mut self, user_id: i64, label: &str, max: Option<i64>, now: i64) -> (r:
        Result<bool, RegistryError>)
        requires
            old(self).wf(),
        ensures
            final(self).wf(),
            (final(self)@, answer(r)) == old(self)@.claim(user_id, label@, max, now),
    {
        match label::validate_label(label) {
            Ok(_) => {},
            Err(why) => return Err(RegistryError::InvalidLabel(label.to_owned(), why)),
        }
        match self.find_host(label) {
            Some(i) => {
                return if self.hosts[i].user_id == user_id {
                    Ok(false)
                } else {
                    Err(RegistryError::LabelTaken(label.to_owned()))
                };
            },
            None => {},
        }
        match max {
            Some(m) => {
                let owned: i128 = self.owned(user_id);
                if owned >= m as i128 {
                    return Err(RegistryError::CapExceeded);
                }
            },
            None => {},
        }
        if !self.knows_id(user_id) {
            return Err(RegistryError::LabelTaken(label.to_owned()));
        }
        match self.store_host(user_id, label, now) {
            Ok(_) => Ok(true),
            Err(e) => Err(e),
        }
    }

    /// Store a hostname row for a free label.
    fn store_host(&mut self, user: i64, label: &str, now: i64) -> (r: Result<(), RegistryError>)
        requires
            old(self).wf(),
            old(self)@.has_user_id(user),
            !old(self)@.has_label(label@),
        ensures
            final(self).wf(),
            (final(self)@, answer(r)) == old(self)@.store_host(user, label@, now),
    {
        let ghost before = self@;
        proof {
            ledger::lemma_store_host_wf(self@, user, label@, now);
        }
        let n: usize = self.hosts.len();
        let id: i64 = if n == 0 {
            1
        } else {
            let last: i64 = self.hosts[n - 1].id;
            if last == i64::MAX {
                return Err(RegistryError::Db(DbFault::NoIdLeft));
            }
            last + 1
        };
        self.hosts.push(HostRow { id, user_id: user, label: label.to_owned(), created_at: now });
        assert(self@ =~= before.store_host(user, label@, now).0);
        Ok(())
    }

    /// Register `label` to `user_id` if it is free.
    ///
    /// * `Ok(true)`: it was free and is now this user's.
    /// * `Ok(false)`: this user owns it already.
    /// * `LabelTaken`: someone else owns it.
    /// * `InvalidLabel`: no such label may be claimed.
    pub fn claim_label(&mut self, user_id: i64, label: &str) -> (r: Result<bool, RegistryError>)
        requires
            old(self).wf(),
        ensures
            final(self).wf(),
            exists|now: i64|
                (final(self)@, answer(r)) == #[trigger] old(self)@.claim(
                    user_id,
                    label@,
                    None,
                    now,
                ),
    {
        self.claim_label_capped(user_id, label, None)
    }

    /// Like `claim_label` but under a cap on what the user owns. Claiming again
    /// what the user owns never counts against the cap.
    pub fn claim_label_capped(&mut self, user_id: i64, label: &str, max: Option<i64>) -> (r: Result<
        bool,
        RegistryError,
    >)
        requires
            old(self).wf(),
        ensures
            final(self).wf(),
            exists|now: i64|
                (final(self)@, answer(r)) == #[trigger] old(self)@.claim(user_id, label@, max, now),
    {
        let now: i64 = now_unix();
        self.claim_label_at(user_id, label, max, now)
    }

    /// The slots of everything `user` owns.
    fn slots_of(&self, user: i64) -> (r: Vec<Slot>)
        ensures
            r@ == self@.owned_slots(user),
    {
        let ghost hs = self@.hosts;
        let ghost hp = rows::owned_by::<HostRow>(user);
        let ghost hf = |h: HostView| ledger::host_slot(h);
        let ghost ps = self@.ports;
        let ghost pp = rows::owned_by::<PortRow>(user);
        let ghost pf = |p: PortView| ledger::port_slot(p);
        let mut out: Vec<Slot> = Vec::new();
        let mut i: usize = 0;
        proof {
            reveal(Seq::filter);
            assert(hs.take(0) =~= Seq::<HostView>::empty());
            assert(out@ =~= hs.take(0).filter(hp).map_values(hf));
        }
        while i < self.hosts.len()
            invariant
                i <= self.hosts@.len(),
                hs == self@.hosts,
                hp == rows::owned_by::<HostRow>(user),
                hf == (|h: HostView| ledger::host_slot(h)),
                out@ == hs.take(i as int).filter(hp).map_values(hf),
            decreases self.hosts@.len() - i,
        {
            proof {
                rows::lemma_filter_step(hs, hp, i as int);
            }
            let row = &self.hosts[i];
            if row.user_id == user {
                out.push(Slot { created_at: row.created_at, key: row.id, is_port: false });
                assert(out@ =~= hs.take(i + 1).filter(hp).map_values(hf));
            }
            i += 1;
        }
        let ghost first = out@;
        let mut j: usize = 0;
        proof {
            assert(hs.take(i as int) =~= hs);
            reveal(Seq::filter);
            assert(ps.take(0) =~= Seq::<PortView>::empty());
            assert(out@ =~= first + ps.take(0).filter(pp).map_values(pf));
        }
        while j < self.ports.len()
            invariant
                j <= self.ports@.len(),
                ps == self@.ports,
                pp == rows::owned_by::<PortRow>(user),
                pf == (|p: PortView| ledger::port_slot(p)),
                out@ == first + ps.take(j as int).filter(pp).map_values(pf),
            decreases self.ports@.len() - j,
        {
            proof {
                rows::lemma_filter_step(ps, pp, j as int);
            }
            let row = &self.ports[j];
            if row.user_id == user {
                out.push(Slot { created_at: row.created_at, key: row.port as i64, is_port: true });
                assert(out@ =~= first + ps.take(j + 1).filter(pp).map_values(pf));
            }
            j += 1;
        }
        assert(ps.take(j as int) =~= ps);
        out
    }

    /// What `user` owns, oldest first.
    fn slots_by_age(&self, user: i64) -> (r: Vec<Slot>)
        ensures
            r@ == self@.by_age(user),
    {
        let slots = self.slots_of(user);
        let ghost sv = slots@;
        let sorted = order::sort(slots);
        proof {
            assert(order::views(sv) =~= sv);
            assert(order::views(sorted@) =~= sorted@);
            assert(vstd::relations::sorted_by(sorted@, ledger::age_order())) by {
                let le = ledger::age_order();
                assert forall|i: int, j: int| 0 <= i < j < sorted@.len() implies #[trigger] le(
                    sorted@[i],
                    sorted@[j],
                ) by {
                    assert(order::views(sorted@)[i] == sorted@[i]);
                    assert(order::views(sorted@)[j] == sorted@[j]);
                }
            }
            ledger::lemma_age_unique(self@, user, sorted@);
        }
        sorted
    }

    /// The label of a hostname id that is stored.
    fn label_by_id(&self, id: i64) -> (r: String)
        requires
            self.wf(),
            exists|i: int| ledger::is_host_id(self@.hosts, id, i),
        ensures
            r@ == self@.host_by_id(id).label,
    {
        let mut i: usize = 0;
        while i < self.hosts.len()
            invariant
                i <= self.hosts@.len(),
                self.wf(),
                exists|j: int| i <= j && #[trigger] ledger::is_host_id(self@.hosts, id, j),
            decreases self.hosts@.len() - i,
        {
            if self.hosts[i].id == id {
                proof {
                    ledger::lemma_host_id(self@, id, i as int);
                }
                return self.hosts[i].label.clone();
            }
            assert(!ledger::is_host_id(self@.hosts, id, i as int));
            i += 1;
        }
        String::new()
    }

    /// Prune what `user_id` owns down to `cap`: the oldest `cap` resources stay
    /// and everything newer goes, hostnames and ports pooled. A negative cap
    /// prunes everything. Returns the labels and ports that went.
    pub fn prune_owned_to_cap(&mut self, user_id: i64, cap: i64) -> (r: Result<
        (Vec<String>, Vec<u16>),
        RegistryError,
    >)
        requires
            old(self).wf(),
        ensures
            final(self).wf(),
            r is Ok,
            (final(self)@, (frames::names(r->Ok_0.0@), r->Ok_0.1@)) == old(self)@.prune(
                user_id,
                cap,
            ),
            r->Ok_0.0@.len() + r->Ok_0.1@.len() <= usize::MAX,
    {
        let ghost before = self@;
        let all = self.slots_by_age(user_id);
        let keep: i64 = if cap < 0 {
            0
        } else {
            cap
        };
        let mut labels: Vec<String> = Vec::new();
        let mut ports: Vec<u16> = Vec::new();
        let ghost hf = |s: Slot| before.host_by_id(s.key).label;
        let ghost pf = |s: Slot| s.key as u16;
        let mut doomed: Vec<Slot> = Vec::new();
        let mut k: usize = 0;
        let ghost dv = before.doomed(user_id, cap);
        proof {
            ledger::lemma_by_age(before, user_id);
            reveal(Seq::filter);
            assert(frames::names(labels@) =~= doomed@.filter(ledger::for_hosts()).map_values(hf));
            assert(ports@ =~= doomed@.filter(ledger::for_ports()).map_values(pf));
        }
        while k < all.len()
            invariant
                k <= all@.len(),
                self@ == before,
                before.wf(),
                all@ == before.by_age(user_id),
                keep == (if cap < 0 {
                    0i64
                } else {
                    cap
                }),
                hf == (|s: Slot| before.host_by_id(s.key).label),
                pf == (|s: Slot| s.key as u16),
                forall|s: Slot|
                    all@.contains(s) ==> #[trigger] before.owned_slots(user_id).contains(s),
                doomed@ == (if k <= keep {
                    Seq::<Slot>::empty()
                } else {
                    all@.subrange(keep as int, k as int)
                }),
                frames::names(labels@) == doomed@.filter(ledger::for_hosts()).map_values(hf),
                ports@ == doomed@.filter(ledger::for_ports()).map_values(pf),
            decreases all@.len() - k,
        {
            if k as i128 >= keep as i128 {
                let s = all[k];
                let ghost d0 = doomed@;
                let ghost l0 = labels@;
                proof {
                    assert(all@.contains(s));
                    ledger::lemma_slot_row(before, user_id, s);
                    assert(d0.push(s).drop_last() =~= d0);
                    reveal(Seq::filter);
                }
                if s.is_port {
                    ports.push(s.key as u16);
                } else {
                    let l = self.label_by_id(s.key);
                    labels.push(l);
                    assert(frames::names(labels@) =~= frames::names(l0).push(l@));
                }
                doomed.push(s);
                proof {
                    assert(doomed@ =~= all@.subrange(keep as int, k + 1));
                    assert(frames::names(labels@) =~= doomed@.filter(
                        ledger::for_hosts(),
                    ).map_values(hf));
                    assert(ports@ =~= doomed@.filter(ledger::for_ports()).map_values(pf));
                }
            }
            k += 1;
        }
        assert(doomed@ =~= dv);
        proof {
            ledger::lemma_filtered_wf(
                before,
                ledger::spared_host(user_id, dv),
                ledger::spared_port(user_id, dv),
            );
        }
        let spare_host = |h: &HostRow| -> (b: bool)
            ensures
                b == ledger::spared_host(user_id, doomed@)(h@),
        {
            let s = Slot { created_at: h.created_at, key: h.id, is_port: false };
            h.user_id != user_id || !has_slot(&doomed, s)
        };
        rows::keep_where(&mut self.hosts, spare_host, Ghost(ledger::spared_host(user_id, dv)));
        let spare_port = |p: &PortRow| -> (b: bool)
            ensures
                b == ledger::spared_port(user_id, doomed@)(p@),
        {
            let s = Slot { created_at: p.created_at, key: p.port as i64, is_port: true };
            p.user_id != user_id || !has_slot(&doomed, s)
        };
        rows::keep_where(&mut self.ports, spare_port, Ghost(ledger::spared_port(user_id, dv)));
        proof {
            assert(self@ =~= before.prune(user_id, cap).0);
            rows::lemma_filter_split(doomed@, ledger::for_hosts(), ledger::for_ports());
            assert(frames::names(labels@).len() == labels@.len());
        }
        Ok((labels, ports))
    }

    /// The tokens, of one user or of all, by id.
    pub fn list_tokens(&self, user: Option<&str>) -> (r: Result<Vec<TokenRow>, RegistryError>)
        requires
            self.wf(),
        ensures
            r is Ok,
            order::views(r->Ok_0@) == self@.token_list(str_opt(user)),
    {
        let ghost s = self@.tokens;
        let ghost p = ledger::token_shown(self@, str_opt(user));
        let ghost f = ledger::token_row(self@);
        let mut out: Vec<TokenRow> = Vec::new();
        let mut i: usize = 0;
        proof {
            reveal(Seq::filter);
            assert(s.take(0) =~= Seq::<TokenView>::empty());
            assert(order::views(out@) =~= s.take(0).filter(p).map_values(f));
        }
        while i < self.tokens.len()
            invariant
                i <= self.tokens@.len(),
                self.wf(),
                s == self@.tokens,
                p == ledger::token_shown(self@, str_opt(user)),
                f == ledger::token_row(self@),
                order::views(out@) == s.take(i as int).filter(p).map_values(f),
            decreases self.tokens@.len() - i,
        {
            let ghost done = out@;
            proof {
                rows::lemma_filter_step(s, p, i as int);
                assert(self@.has_user_id(s[i as int].user_id));
            }
            let t = &self.tokens[i];
            let name = self.name_by_id(t.user_id);
            let shown = match user {
                Some(u) => text::same(u, name.as_str()),
                None => true,
            };
            if shown {
                let row = TokenRow {
                    id: t.id,
                    user: name,
                    label: dup_opt(&t.label),
                    created_at: t.created_at,
                    revoked: t.revoked_at.is_some(),
                };
                out.push(row);
                assert(order::views(out@) =~= order::views(done).push(row@));
                assert(order::views(out@) =~= s.take(i + 1).filter(p).map_values(f));
            }
            i += 1;
        }
        assert(s.take(i as int) =~= s);
        Ok(out)
    }

    /// The name of a stored user.
    fn name_by_id(&self, id: i64) -> (r: String)
        requires
            self.wf(),
            self@.has_user_id(id),
        ensures
            r@ == self@.user_by_id(id).name,
    {
        let mut i: usize = 0;
        while i < self.users.len()
            invariant
                i <= self.users@.len(),
                self.wf(),
                exists|j: int| i <= j && #[trigger] ledger::is_user_id(self@.users, id, j),
            decreases self.users@.len() - i,
        {
            if self.users[i].id == id {
                proof {
                    ledger::lemma_user_id(self@, id, i as int);
                }
                return self.users[i].name.clone();
            }
            assert(!ledger::is_user_id(self@.users, id, i as int));
            i += 1;
        }
        String::new()
    }

    /// Revoke one token at `now`; the answer is whether a valid one was found.
    pub fn revoke_token_at(&mut self, id: i64, now: i64) -> (r: Result<bool, RegistryError>)
        requires
            old(self).wf(),
        ensures
            final(self).wf(),
            r is Ok,
            (final(self)@, r->Ok_0) == old(self)@.revoke(id, now),
    {
        let ghost before = self@;
        let n: usize = self.tokens.len();
        let mut found = false;
        let mut i: usize = 0;
        while i < n
            invariant
                i <= n,
                n == self.tokens@.len(),
                n == before.tokens.len(),
                self@ == (RegistryView { tokens: self@.tokens, ..before }),
                found == exists|j: int|
                    0 <= j < i && #[trigger] ledger::is_token_id(before.tokens, id, j)
                        && before.tokens[j].revoked_at is None,
                forall|j: int|
                    0 <= j < n ==> #[trigger] self@.tokens[j] == (if j < i && before.tokens[j].id
                        == id && before.tokens[j].revoked_at is None {
                        ledger::revoked(before.tokens[j], now)
                    } else {
                        before.tokens[j]
                    }),
            decreases n - i,
        {
            let ghost cur = self@.tokens;
            assert(cur[i as int] == before.tokens[i as int]);
            if self.tokens[i].id == id && self.tokens[i].revoked_at.is_none() {
                assert(ledger::is_token_id(before.tokens, id, i as int));
                self.tokens[i].revoked_at = Some(now);
                found = true;
                assert(self@.tokens =~= cur.update(
                    i as int,
                    ledger::revoked(before.tokens[i as int], now),
                ));
            }
            i += 1;
        }
        proof {
            assert(self@.tokens =~= before.revoke(id, now).0.tokens);
            assert(self@ =~= before.revoke(id, now).0);
            ledger::lemma_revoked_wf(before, self@);
            if exists|j: int|
                ledger::is_token_id(before.tokens, id, j) && before.tokens[j].revoked_at is None {
                let j = choose|j: int|
                    ledger::is_token_id(before.tokens, id, j) && before.tokens[j].revoked_at
                        is None;
                assert(0 <= j < i && ledger::is_token_id(before.tokens, id, j));
            }
        }
        Ok(found)
    }

    /// Revoke one token; the answer is whether a valid one was found.
    pub fn revoke_token(&mut self, id: i64) -> (r: Result<bool, RegistryError>)
        requires
            old(self).wf(),
        ensures
            final(self).wf(),
            r is Ok,
            exists|now: i64| (final(self)@, r->Ok_0) == #[trigger] old(self)@.revoke(id, now),
    {
        let now: i64 = now_unix();
        self.revoke_token_at(id, now)
    }

    /// Grant a label to a user at `now`.
    pub fn add_hostname_at(&mut self, label: &str, user: &str, now: i64) -> (r: Result<
        (),
        RegistryError,
    >)
        requires
            old(self).wf(),
        ensures
            final(self).wf(),
            (final(self)@, answer(r)) == old(self)@.add_hostname(label@, user@, now),
    {
        match label::validate_label(label) {
            Ok(_) => {},
            Err(why) => return Err(RegistryError::InvalidLabel(label.to_owned(), why)),
        }
        let id: i64 = match self.find_user(user) {
            Some(i) => {
                assert(ledger::is_user_id(self@.users, self@.users[i as int].id, i as int));
                self.users[i].id
            },
            None => return Err(RegistryError::NoSuchUser(user.to_owned())),
        };
        if self.find_host(label).is_some() {
            return Err(RegistryError::LabelTaken(label.to_owned()));
        }
        self.store_host(id, label, now)
    }

    /// Grant a label to a user.
    pub fn add_hostname(&mut self, label: &str, user: &str) -> (r: Result<(), RegistryError>)
        requires
            old(self).wf(),
        ensures
            final(self).wf(),
            exists|now: i64|
                (final(self)@, answer(r)) == #[trigger] old(self)@.add_hostname(label@, user@, now),
    {
        let now: i64 = now_unix();
        self.add_hostname_at(label, user, now)
    }

    /// The hostnames, of one user or of all, as label and owner, by label.
    pub fn list_hostnames(&self, user: Option<&str>) -> (r: Result<
        Vec<(String, String)>,
        RegistryError,
    >)
        requires
            self.wf(),
        ensures
            r is Ok,
            order::views(r->Ok_0@) == self@.host_list(str_opt(user)).sort_by(rows::pair_order()),
    {
        let ghost s = self@.hosts;
        let ghost p = ledger::host_shown(self@, str_opt(user));
        let ghost f = ledger::host_pair(self@);
        let mut out: Vec<(String, String)> = Vec::new();
        let mut i: usize = 0;
        proof {
            reveal(Seq::filter);
            assert(s.take(0) =~= Seq::<HostView>::empty());
            assert(order::views(out@) =~= s.take(0).filter(p).map_values(f));
        }
        while i < self.hosts.len()
            invariant
                i <= self.hosts@.len(),
                self.wf(),
                s == self@.hosts,
                p == ledger::host_shown(self@, str_opt(user)),
                f == ledger::host_pair(self@),
                order::views(out@) == s.take(i as int).filter(p).map_values(f),
            decreases self.hosts@.len() - i,
        {
            let ghost done = out@;
            proof {
                rows::lemma_filter_step(s, p, i as int);
                assert(self@.has_user_id(s[i as int].user_id));
            }
            let name = self.name_by_id(self.hosts[i].user_id);
            let shown = match user {
                Some(u) => text::same(u, name.as_str()),
                None => true,
            };
            if shown {
                let row = (self.hosts[i].label.clone(), name);
                out.push(row);
                assert(order::views(out@) =~= order::views(done).push(row@));
                assert(order::views(out@) =~= s.take(i + 1).filter(p).map_values(f));
            }
            i += 1;
        }
        assert(s.take(i as int) =~= s);
        Ok(rows::sort_pairs(out))
    }

    /// Drop the row of a label; the answer is whether there was one.
    pub fn remove_hostname(&mut self, label: &str) -> (r: Result<bool, RegistryError>)
        requires
            old(self).wf(),
        ensures
            final(self).wf(),
            r is Ok,
            (final(self)@, r->Ok_0) == old(self)@.remove_hostname(label@),
    {
        let ghost before = self@;
        let ghost p = |h: HostView| h.label != label@;
        let found = self.find_host(label).is_some();
        proof {
            let every = |q: PortView| true;
            ledger::lemma_filtered_wf(before, p, every);
            rows::lemma_filter_all(before.ports, every);
        }
        let other = |h: &HostRow| -> (b: bool)
            ensures
                b == (h@.label != label@),
        {
            !text::same(h.label.as_str(), label)
        };
        rows::keep_where(&mut self.hosts, other, Ghost(p));
        assert(self@ =~= before.remove_hostname(label@).0);
        Ok(found)
    }

    /// Reserve a port for a user at `now`.
    pub fn add_port_at(&mut self, port: u16, user: &str, now: i64) -> (r: Result<(), RegistryError>)
        requires
            old(self).wf(),
        ensures
            final(self).wf(),
            (final(self)@, answer(r)) == old(self)@.add_port(port, user@, now),
    {
        let ghost before = self@;
        let id: i64 = match self.find_user(user) {
            Some(i) => {
                assert(ledger::is_user_id(self@.users, self@.users[i as int].id, i as int));
                self.users[i].id
            },
            None => return Err(RegistryError::NoSuchUser(user.to_owned())),
        };
        if self.find_port(port).is_some() {
            return Err(RegistryError::PortTaken(port));
        }
        let mut i: usize = 0;
        while i < self.ports.len() && self.ports[i].port < port
            invariant
                i <= self.ports@.len(),
                self@ == before,
                forall|j: int| 0 <= j < i ==> (#[trigger] before.ports[j]).port < port,
            decreases self.ports@.len() - i,
        {
            i += 1;
        }
        proof {
            let s = before.ports;
            assert forall|j: int| i <= j < s.len() implies (#[trigger] s[j]).port > port by {
                assert(!ledger::is_port(s, port, i as int));
                assert(!ledger::is_port(s, port, j));
                if i < j {
                    assert(PortRow::apart(s[i as int], s[j]));
                }
            }
            ledger::lemma_port_split(s, port, i as int);
            ledger::lemma_add_port_wf(before, port, id, now, i as int);
        }
        self.ports.insert(i, PortRow { port, user_id: id, created_at: now });
        assert(self@.ports =~= before.ports.take(i as int) + seq![
            PortView { port, user_id: id, created_at: now },
        ] + before.ports.skip(i as int));
        assert(self@ =~= before.add_port(port, user@, now).0);
        Ok(())
    }

    /// Reserve a port for a user.
    pub fn add_port(&mut self, port: u16, user: &str) -> (r: Result<(), RegistryError>)
        requires
            old(self).wf(),
        ensures
            final(self).wf(),
            exists|now: i64|
                (final(self)@, answer(r)) == #[trigger] old(self)@.add_port(port, user@, now),
    {
        let now: i64 = now_unix();
        self.add_port_at(port, user, now)
    }

    /// Every reserved port with its owner, ascending.
    pub fn list_ports(&self) -> (r: Result<Vec<(u16, String)>, RegistryError>)
        requires
            self.wf(),
        ensures
            r is Ok,
            order::views(r->Ok_0@) == self@.ports.map_values(ledger::port_pair(self@)),
    {
        let ghost s = self@.ports;
        let ghost f = ledger::port_pair(self@);
        let mut out: Vec<(u16, String)> = Vec::new();
        let mut i: usize = 0;
        assert(order::views(out@) =~= s.map_values(f).take(0));
        while i < self.ports.len()
            invariant
                i <= self.ports@.len(),
                self.wf(),
                s == self@.ports,
                f == ledger::port_pair(self@),
                order::views(out@) == s.map_values(f).take(i as int),
            decreases self.ports@.len() - i,
        {
            let ghost done = out@;
            assert(self@.has_user_id(s[i as int].user_id));
            let row = (self.ports[i].port, self.name_by_id(self.ports[i].user_id));
            out.push(row);
            i += 1;
            assert(order::views(out@) =~= order::views(done).push(row@));
            assert(order::views(out@) =~= s.map_values(f).take(i as int));
        }
        assert(s.map_values(f).take(i as int) =~= s.map_values(f));
        Ok(out)
    }

    /// Drop the row of a port; the answer is whether there was one.
    pub fn remove_port(&mut self, port: u16) -> (r: Result<bool, RegistryError>)
        requires
            old(self).wf(),
        ensures
            final(self).wf(),
            r is Ok,
            (final(self)@, r->Ok_0) == old(self)@.remove_port(port),
    {
        let ghost before = self@;
        let ghost p = |x: PortView| x.port != port;
        let found = self.find_port(port).is_some();
        proof {
            let every = |h: HostView| true;
            ledger::lemma_filtered_wf(before, every, p);
            rows::lemma_filter_all(before.hosts, every);
        }
        let other = |x: &PortRow| -> (b: bool)
            ensures
                b == (x@.port != port),
        {
            x.port != port
        };
        rows::keep_where(&mut self.ports, other, Ghost(p));
        assert(self@ =~= before.remove_port(port).0);
        Ok(found)
    }

    /// The label of a hostname that sits directly under this relay's apex and
    /// may be claimed; ownership therefore fails closed for every other name.
    pub fn label_of(&self, fqdn: &str) -> (r: Option<String>)
        ensures
            rows::opt_view(r) == self@.label_of(fqdn@),
    {
        let suffix = text::join2(".", self.domain.as_str());
        proof {
            reveal_strlit(".");
            assert("."@ =~= seq!['.']);
        }
        match text::strip_suffix(fqdn, suffix.as_str()) {
            None => None,
            Some(l) => {
                if l.as_str().is_empty() || text::has_char(l.as_str(), '.') {
                    return None;
                }
                match label::validate_label(l.as_str()) {
                    Ok(_) => Some(l),
                    Err(_) => None,
                }
            },
        }
    }

    /// The full hostname of a label.
    fn fqdn(&self, l: &str) -> (r: String)
        ensures
            r@ == l@ + seq!['.'] + self@.domain,
    {
        proof {
            reveal_strlit(".");
            assert("."@ =~= seq!['.']);
        }
        text::join3(l, ".", self.domain.as_str())
    }
}

/// Whether a slot is listed.
fn has_slot(v: &Vec<Slot>, s: Slot) -> (r: bool)
    ensures
        r == v@.contains(s),
{
    let mut i: usize = 0;
    while i < v.len()
        invariant
            i <= v@.len(),
            forall|j: int| 0 <= j < i ==> v@[j] != s,
        decreases v@.len() - i,
    {
        let x = v[i];
        if x.created_at == s.created_at && x.key == s.key && x.is_port == s.is_port {
            assert(v@[i as int] == s);
            return true;
        }
        i += 1;
    }
    false
}

impl Authenticator for Registry {
    open spec fn inv(&self) -> bool {
        self.wf()
    }

    open spec fn who(v: RegistryView, token: Seq<char>) -> Option<WhoView> {
        v.authenticate(token)
    }

    open spec fn owns_host(v: RegistryView, user: i64, host: Seq<char>) -> bool {
        v.owns_host(user, host)
    }

    open spec fn owns_tcp(v: RegistryView, user: i64, port: u16) -> bool {
        v.owns_port(user, port)
    }

    open spec fn claim_step(
        v: RegistryView,
        user: i64,
        host: Seq<char>,
        max: Option<i64>,
        now: i64,
    ) -> (RegistryView, ClaimView) {
        v.claim_host(user, host, max, now)
    }

    open spec fn release_host_step(v: RegistryView, user: i64, host: Seq<char>) -> (
        RegistryView,
        bool,
    ) {
        v.release_host(user, host)
    }

    open spec fn release_port_step(v: RegistryView, user: i64, port: u16) -> (RegistryView, bool) {
        v.release_one_port(user, port)
    }

    open spec fn hosts_of(v: RegistryView, user: i64) -> Seq<Seq<char>> {
        v.fqdns_of(user)
    }

    open spec fn ports_of(v: RegistryView, user: i64) -> Seq<u16> {
        ledger::port_numbers(rows::of_user::<PortRow>(v.ports, user))
    }

    /// Resolve a token to its user. The stored digest is looked up and then
    /// checked again, in constant time.
    fn authenticate(&self, token: &str) -> (r: Option<AuthedUser>) {
        let hash = hash_token(token);
        let mut i: usize = 0;
        while i < self.tokens.len()
            invariant
                i <= self.tokens@.len(),
                self@.wf(),
                hash@ == ledger::token_digest(token@),
                forall|j: int|
                    0 <= j < i ==> !#[trigger] ledger::is_valid_token(self@.tokens, hash@, j),
            decreases self.tokens@.len() - i,
        {
            let t = &self.tokens[i];
            if t.revoked_at.is_none() && crypto::ct_eq(t.token_hash.as_slice(), hash.as_slice()) {
                assert(ledger::is_valid_token(self@.tokens, hash@, i as int));
                proof {
                    ledger::lemma_token(self@, token@, i as int);
                }
                return Some(AuthedUser { user_id: t.user_id, name: self.name_by_id(t.user_id) });
            }
            assert(!ledger::is_valid_token(self@.tokens, hash@, i as int));
            i += 1;
        }
        assert forall|j: int| !#[trigger] ledger::is_valid_token(self@.tokens, hash@, j) by {
            if 0 <= j < self@.tokens.len() {
                assert(j < i);
            }
        }
        None
    }

    fn owns_hostname(&self, user_id: i64, hostname: &str) -> (r: bool) {
        match self.label_of(hostname) {
            None => false,
            Some(l) => match self.find_host(l.as_str()) {
                Some(i) => self.hosts[i].user_id == user_id,
                None => false,
            },
        }
    }

    fn owns_port(&self, user_id: i64, port: u16) -> (r: bool) {
        match self.find_port(port) {
            Some(i) => self.ports[i].user_id == user_id,
            None => false,
        }
    }

    /// Register-or-own one hostname. Fails closed on anything that is not a
    /// claimable label directly under this relay's apex.
    fn claim_hostname(&mut self, user_id: i64, hostname: &str, max: Option<i64>, now: i64) -> (r:
        ClaimOutcome) {
        match self.label_of(hostname) {
            None => ClaimOutcome::Invalid("not a valid hostname under this relay"),
            Some(l) => match self.claim_label_at(user_id, l.as_str(), max, now) {
                Ok(_) => ClaimOutcome::Owned,
                Err(RegistryError::LabelTaken(_)) => ClaimOutcome::Taken,
                Err(RegistryError::CapExceeded) => ClaimOutcome::CapExceeded,
                Err(RegistryError::InvalidLabel(_, why)) => ClaimOutcome::Invalid(why),
                Err(_) => ClaimOutcome::Error,
            },
        }
    }

    fn release_hostname(&mut self, user_id: i64, hostname: &str) -> (r: bool) {
        match self.label_of(hostname) {
            None => false,
            Some(l) => {
                let mine = match self.find_host(l.as_str()) {
                    Some(i) => self.hosts[i].user_id == user_id,
                    None => false,
                };
                if mine {
                    let _ = self.remove_hostname(l.as_str());
                }
                mine
            },
        }
    }

    fn release_port(&mut self, user_id: i64, port: u16) -> (r: bool) {
        let mine = match self.find_port(port) {
            Some(i) => self.ports[i].user_id == user_id,
            None => false,
        };
        if mine {
            let _ = self.remove_port(port);
        }
        mine
    }

    /// The hostnames `user_id` owns, in the order of their registration.
    fn owned_hostnames(&self, user_id: i64) -> (r: Vec<String>) {
        let ls = self.labels_of(user_id);
        let ghost lv = ledger::labels(rows::of_user::<HostRow>(self@.hosts, user_id));
        let ghost f = |l: Seq<char>| l + seq!['.'] + self@.domain;
        let mut out: Vec<String> = Vec::new();
        let mut i: usize = 0;
        assert(frames::names(out@) =~= lv.map_values(f).take(0));
        while i < ls.len()
            invariant
                i <= ls@.len(),
                lv == frames::names(ls@),
                f == (|l: Seq<char>| l + seq!['.'] + self@.domain),
                frames::names(out@) == lv.map_values(f).take(i as int),
            decreases ls@.len() - i,
        {
            let ghost done = out@;
            assert(lv[i as int] == ls@[i as int]@);
            let h = self.fqdn(ls[i].as_str());
            out.push(h);
            i += 1;
            assert(frames::names(out@) =~= frames::names(done).push(h@));
            assert(frames::names(out@) =~= lv.map_values(f).take(i as int));
        }
        assert(lv.map_values(f).take(i as int) =~= lv.map_values(f));
        out
    }

    fn owned_ports(&self, user_id: i64) -> (r: Vec<u16>) {
        self.numbers_of(user_id)
    }
}

/// View of an answer that holds a text.
pub open spec fn text_answer(r: Result<String, RegistryError>) -> Result<Seq<char>, ErrView> {
    match r {
        Ok(s) => Ok(s@),
        Err(e) => Err(e@),
    }
}

/// View of an answer that holds a token and a fact about it.
pub open spec fn token_answer<T>(r: Result<(String, T), RegistryError>) -> Result<
    (Seq<char>, T),
    ErrView,
> {
    match r {
        Ok((s, t)) => Ok((s@, t)),
        Err(e) => Err(e@),
    }
}

/// View of an answer that holds labels and ports.
pub open spec fn lists_answer(r: Result<(Vec<String>, Vec<u16>), RegistryError>) -> Result<
    (Seq<Seq<char>>, Seq<u16>),
    ErrView,
> {
    match r {
        Ok((a, b)) => Ok((frames::names(a@), b@)),
        Err(e) => Err(e@),
    }
}

/// View of an optional string slice.
pub open spec fn str_opt(o: Option<&str>) -> Option<Seq<char>> {
    match o {
        Some(s) => Some(s@),
        None => None,
    }
}

} // verus!
