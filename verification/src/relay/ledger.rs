//! The registry as mathematics: its rows as sequences and each operation as a
//! step from the state before to the state after and the answer.
use vstd::prelude::*;

use crate::relay::auth::ClaimView;
use crate::relay::crypto;
use crate::relay::label;
use crate::relay::rows;
use crate::relay::rows::{
    HostRow, HostView, PortRow, PortView, Row, Slot, TokenRec, TokenView, UserRow, UserView,
};
use crate::text;

verus! {

/// What the tables themselves refuse.
#[derive(Clone, Copy, Debug, PartialEq, Eq, Structural)]
pub enum DbFault {
    /// A token with this digest is already stored.
    DuplicateToken,
    /// The largest row id is taken.
    NoIdLeft,
    /// Stored rows contradict each other.
    BadRows,
    /// A count does not fit its integer.
    TooMany,
}

/// View of a [`RegistryError`].
#[allow(inconsistent_fields)]
pub enum ErrView {
    Db(DbFault),
    NoSuchUser(Seq<char>),
    UserExists(Seq<char>),
    UserNotEmpty(Seq<char>),
    InvalidLabel(Seq<char>, Seq<char>),
    LabelTaken(Seq<char>),
    PortTaken(u16),
    CapExceeded,
}

impl ErrView {
    /// The text shown to people.
    pub open spec fn message(self) -> Seq<char> {
        match self {
            ErrView::Db(DbFault::DuplicateToken) => "database error: duplicate token digest"@,
            ErrView::Db(DbFault::NoIdLeft) => "database error: no row id left"@,
            ErrView::Db(DbFault::BadRows) => "database error: rows contradict each other"@,
            ErrView::Db(DbFault::TooMany) => "database error: integer overflow"@,
            ErrView::NoSuchUser(n) => "no such user: "@ + n,
            ErrView::UserExists(n) => "user "@ + n + " already exists"@,
            ErrView::UserNotEmpty(n) => "user "@ + n
                + " still owns tokens/hostnames/ports (use --force)"@,
            ErrView::InvalidLabel(l, why) => "invalid label '"@ + l + "': "@ + why,
            ErrView::LabelTaken(l) => "label '"@ + l + "' is already taken"@,
            ErrView::PortTaken(p) => "port "@ + text::decimal(p as nat)
                + " is reserved by another user"@,
            ErrView::CapExceeded =>
                "tunnel cap reached: already owns the maximum number of resources"@,
        }
    }
}

/// View of a [`TokenRow`].
#[verifier::ext_equal]
pub struct TokenRowView {
    pub id: i64,
    pub user: Seq<char>,
    pub label: Option<Seq<char>>,
    pub created_at: i64,
    pub revoked: bool,
}

/// An authenticated user.
#[verifier::ext_equal]
pub struct WhoView {
    pub user_id: i64,
    pub name: Seq<char>,
}

/// The digest under which a token is stored.
pub open spec fn token_digest(token: Seq<char>) -> Seq<u8> {
    crypto::sha256(vstd::utf8::encode_utf8(token))
}

/// The token text made of a secret.
pub open spec fn token_text(secret: Seq<u8>) -> Seq<char> {
    "etun_"@ + crypto::base64_url(secret)
}

/// A text that token generation may give: made of a secret of 32 bytes.
pub open spec fn minted(token: Seq<char>) -> bool {
    exists|secret: Seq<u8>| secret.len() == 32 && token == #[trigger] token_text(secret)
}

/// Acquisition order as a relation.
pub open spec fn age_order() -> spec_fn(Slot, Slot) -> bool {
    |a: Slot, b: Slot| rows::slot_le(a, b)
}

/// The slot of an owned hostname.
pub open spec fn host_slot(h: HostView) -> Slot {
    Slot { created_at: h.created_at, key: h.id, is_port: false }
}

/// The slot of a reserved port.
pub open spec fn port_slot(p: PortView) -> Slot {
    Slot { created_at: p.created_at, key: p.port as i64, is_port: true }
}

/// Row `i` is the user of this name.
pub open spec fn is_user(users: Seq<UserView>, name: Seq<char>, i: int) -> bool {
    0 <= i < users.len() && users[i].name == name
}

/// Row `i` is the user of this id.
pub open spec fn is_user_id(users: Seq<UserView>, id: i64, i: int) -> bool {
    0 <= i < users.len() && users[i].id == id
}

/// Row `i` is the hostname of this label.
pub open spec fn is_host(hosts: Seq<HostView>, l: Seq<char>, i: int) -> bool {
    0 <= i < hosts.len() && hosts[i].label == l
}

/// Row `i` is the hostname of this id.
pub open spec fn is_host_id(hosts: Seq<HostView>, id: i64, i: int) -> bool {
    0 <= i < hosts.len() && hosts[i].id == id
}

/// Row `i` is this port.
pub open spec fn is_port(ports: Seq<PortView>, p: u16, i: int) -> bool {
    0 <= i < ports.len() && ports[i].port == p
}

/// Row `i` is a token with this digest that was not revoked.
pub open spec fn is_valid_token(tokens: Seq<TokenView>, hash: Seq<u8>, i: int) -> bool {
    0 <= i < tokens.len() && tokens[i].hash == hash && tokens[i].revoked_at is None
}

/// Row `i` is the token of this id.
pub open spec fn is_token_id(tokens: Seq<TokenView>, id: i64, i: int) -> bool {
    0 <= i < tokens.len() && tokens[i].id == id
}

/// The row, marked as revoked at `now`.
pub open spec fn revoked(t: TokenView, now: i64) -> TokenView {
    TokenView { revoked_at: Some(now), ..t }
}

/// Valid tokens of a user, as a predicate.
pub open spec fn valid_of(user: i64) -> spec_fn(TokenView) -> bool {
    |t: TokenView| t.user_id == user && t.revoked_at is None
}

/// Hostnames that are not among the doomed slots of `user`.
pub open spec fn spared_host(user: i64, doomed: Seq<Slot>) -> spec_fn(HostView) -> bool {
    |h: HostView| h.user_id != user || !doomed.contains(host_slot(h))
}

/// Ports that are not among the doomed slots of `user`.
pub open spec fn spared_port(user: i64, doomed: Seq<Slot>) -> spec_fn(PortView) -> bool {
    |p: PortView| p.user_id != user || !doomed.contains(port_slot(p))
}

/// Slots of hostnames, as a predicate.
pub open spec fn for_hosts() -> spec_fn(Slot) -> bool {
    |s: Slot| !s.is_port
}

/// Slots of ports, as a predicate.
pub open spec fn for_ports() -> spec_fn(Slot) -> bool {
    |s: Slot| s.is_port
}

/// Ports below `p`, as a predicate.
pub open spec fn below(p: u16) -> spec_fn(PortView) -> bool {
    |x: PortView| x.port < p
}

/// Ports above `p`, as a predicate.
pub open spec fn above(p: u16) -> spec_fn(PortView) -> bool {
    |x: PortView| x.port > p
}

/// The mathematical registry.
#[verifier::ext_equal]
pub struct RegistryView {
    pub domain: Seq<char>,
    pub users: Seq<UserView>,
    pub tokens: Seq<TokenView>,
    pub hosts: Seq<HostView>,
    pub ports: Seq<PortView>,
}

impl RegistryView {
    /// A registry without rows.
    pub open spec fn empty(domain: Seq<char>) -> Self {
        RegistryView {
            domain,
            users: Seq::empty(),
            tokens: Seq::empty(),
            hosts: Seq::empty(),
            ports: Seq::empty(),
        }
    }

    pub open spec fn has_user_id(self, id: i64) -> bool {
        exists|i: int| is_user_id(self.users, id, i)
    }

    /// Names, labels, ports and digests are unique, ids ascend, and every row
    /// belongs to a stored user.
    pub open spec fn wf(self) -> bool {
        &&& rows::pairwise::<UserRow>(self.users)
        &&& rows::pairwise::<TokenRec>(self.tokens)
        &&& rows::pairwise::<HostRow>(self.hosts)
        &&& rows::pairwise::<PortRow>(self.ports)
        &&& forall|i: int|
            0 <= i < self.tokens.len() ==> self.has_user_id((#[trigger] self.tokens[i]).user_id)
        &&& forall|i: int|
            0 <= i < self.hosts.len() ==> self.has_user_id((#[trigger] self.hosts[i]).user_id)
        &&& forall|i: int|
            0 <= i < self.ports.len() ==> self.has_user_id((#[trigger] self.ports[i]).user_id)
    }

    pub open spec fn has_user(self, name: Seq<char>) -> bool {
        exists|i: int| is_user(self.users, name, i)
    }

    /// The user of this name; meaningful when there is one.
    pub open spec fn user(self, name: Seq<char>) -> UserView {
        self.users[choose|i: int| is_user(self.users, name, i)]
    }

    /// The user of this id; meaningful when there is one.
    pub open spec fn user_by_id(self, id: i64) -> UserView {
        self.users[choose|i: int| is_user_id(self.users, id, i)]
    }

    /// The id of the user of this name, if there is one.
    pub open spec fn lookup(self, name: Seq<char>) -> Option<i64> {
        if self.has_user(name) {
            Some(self.user(name).id)
        } else {
            None
        }
    }

    pub open spec fn has_label(self, l: Seq<char>) -> bool {
        exists|i: int| is_host(self.hosts, l, i)
    }

    /// The row of this label; meaningful when there is one.
    pub open spec fn host(self, l: Seq<char>) -> HostView {
        self.hosts[choose|i: int| is_host(self.hosts, l, i)]
    }

    /// The hostname of this id; meaningful when there is one.
    pub open spec fn host_by_id(self, id: i64) -> HostView {
        self.hosts[choose|i: int| is_host_id(self.hosts, id, i)]
    }

    pub open spec fn has_port(self, p: u16) -> bool {
        exists|i: int| is_port(self.ports, p, i)
    }

    /// The row of this port; meaningful when there is one.
    pub open spec fn port(self, p: u16) -> PortView {
        self.ports[choose|i: int| is_port(self.ports, p, i)]
    }

    /// Hostnames and ports `user` owns. Tokens do not count.
    pub open spec fn owned_count(self, user: i64) -> nat {
        rows::of_user::<HostRow>(self.hosts, user).len() + rows::of_user::<PortRow>(
            self.ports,
            user,
        ).len()
    }

    /// The slots of everything `user` owns.
    pub open spec fn owned_slots(self, user: i64) -> Seq<Slot> {
        rows::of_user::<HostRow>(self.hosts, user).map_values(|h: HostView| host_slot(h))
            + rows::of_user::<PortRow>(self.ports, user).map_values(|p: PortView| port_slot(p))
    }

    /// What `user` owns, oldest first.
    pub open spec fn by_age(self, user: i64) -> Seq<Slot> {
        self.owned_slots(user).sort_by(age_order())
    }

    /// What `user` owns beyond the oldest `cap` resources.
    pub open spec fn doomed(self, user: i64, cap: i64) -> Seq<Slot> {
        let keep: int = if cap < 0 {
            0
        } else {
            cap as int
        };
        let all = self.by_age(user);
        if all.len() <= keep {
            Seq::empty()
        } else {
            all.skip(keep)
        }
    }

    /// The labels and ports of a list of slots, in order.
    pub open spec fn named(self, slots: Seq<Slot>) -> (Seq<Seq<char>>, Seq<u16>) {
        (
            slots.filter(for_hosts()).map_values(|s: Slot| self.host_by_id(s.key).label),
            slots.filter(for_ports()).map_values(|s: Slot| s.key as u16),
        )
    }

    /// Prune to the oldest `cap`; the answer names what went, oldest first.
    pub open spec fn prune(self, user: i64, cap: i64) -> (Self, (Seq<Seq<char>>, Seq<u16>)) {
        let doomed = self.doomed(user, cap);
        (
            RegistryView {
                hosts: self.hosts.filter(spared_host(user, doomed)),
                ports: self.ports.filter(spared_port(user, doomed)),
                ..self
            },
            self.named(doomed),
        )
    }

    /// Id of the next user row, if one is left.
    pub open spec fn next_user_id(self) -> Option<i64> {
        if self.users.len() == 0 {
            Some(1i64)
        } else if self.users.last().id < i64::MAX {
            Some((self.users.last().id + 1) as i64)
        } else {
            None
        }
    }

    /// Id of the next token row, if one is left.
    pub open spec fn next_token_id(self) -> Option<i64> {
        if self.tokens.len() == 0 {
            Some(1i64)
        } else if self.tokens.last().id < i64::MAX {
            Some((self.tokens.last().id + 1) as i64)
        } else {
            None
        }
    }

    /// Id of the next hostname row, if one is left.
    pub open spec fn next_host_id(self) -> Option<i64> {
        if self.hosts.len() == 0 {
            Some(1i64)
        } else if self.hosts.last().id < i64::MAX {
            Some((self.hosts.last().id + 1) as i64)
        } else {
            None
        }
    }

    /// Create a user.
    pub open spec fn add_user(self, name: Seq<char>, now: i64) -> (Self, Result<i64, ErrView>) {
        if self.has_user(name) {
            (self, Err(ErrView::UserExists(name)))
        } else {
            match self.next_user_id() {
                None => (self, Err(ErrView::Db(DbFault::NoIdLeft))),
                Some(id) => (
                    RegistryView {
                        users: self.users.push(UserView { id, name, created_at: now }),
                        ..self
                    },
                    Ok(id),
                ),
            }
        }
    }

    /// The user of this name, created when absent.
    pub open spec fn ensure_user(self, name: Seq<char>, now: i64) -> (
        Self,
        Result<(i64, bool), ErrView>,
    ) {
        match self.lookup(name) {
            Some(id) => (self, Ok((id, false))),
            None => {
                let (s, r) = self.add_user(name, now);
                match r {
                    Ok(id) => (s, Ok((id, true))),
                    Err(e) => (s, Err(e)),
                }
            },
        }
    }

    /// Store a token of `user` under its digest.
    pub open spec fn store_token(
        self,
        user: i64,
        hash: Seq<u8>,
        label: Option<Seq<char>>,
        now: i64,
    ) -> (Self, Result<(), ErrView>) {
        if exists|i: int| 0 <= i < self.tokens.len() && (#[trigger] self.tokens[i]).hash == hash {
            (self, Err(ErrView::Db(DbFault::DuplicateToken)))
        } else {
            match self.next_token_id() {
                None => (self, Err(ErrView::Db(DbFault::NoIdLeft))),
                Some(id) => (
                    RegistryView {
                        tokens: self.tokens.push(
                            TokenView {
                                id,
                                user_id: user,
                                hash,
                                label,
                                created_at: now,
                                revoked_at: None,
                            },
                        ),
                        ..self
                    },
                    Ok(()),
                ),
            }
        }
    }

    /// Mint a token for a user that exists.
    pub open spec fn create_token(
        self,
        user: Seq<char>,
        label: Option<Seq<char>>,
        token: Seq<char>,
        now: i64,
    ) -> (Self, Result<Seq<char>, ErrView>) {
        match self.lookup(user) {
            None => (self, Err(ErrView::NoSuchUser(user))),
            Some(id) => {
                let (s, r) = self.store_token(id, token_digest(token), label, now);
                match r {
                    Ok(_) => (s, Ok(token)),
                    Err(e) => (s, Err(e)),
                }
            },
        }
    }

    /// Mint a token for a user, created when absent.
    pub open spec fn provision(self, name: Seq<char>, token: Seq<char>, now: i64) -> (
        Self,
        Result<(Seq<char>, bool), ErrView>,
    ) {
        let (s, u) = self.ensure_user(name, now);
        match u {
            Err(e) => (s, Err(e)),
            Ok((id, created)) => {
                let (t, r) = s.store_token(
                    id,
                    token_digest(token),
                    Some("self-serve"@),
                    now,
                );
                match r {
                    Ok(_) => (t, Ok((token, created))),
                    Err(e) => (t, Err(e)),
                }
            },
        }
    }

    /// Revoke every valid token of `user`.
    pub open spec fn revoke_all(self, user: i64, now: i64) -> Self {
        RegistryView {
            tokens: self.tokens.map_values(
                |t: TokenView|
                    if valid_of(user)(t) {
                        revoked(t, now)
                    } else {
                        t
                    },
            ),
            ..self
        }
    }

    /// Revoke every valid token of a user and mint one.
    pub open spec fn rotate(self, name: Seq<char>, token: Seq<char>, now: i64) -> (
        Self,
        Result<(Seq<char>, usize), ErrView>,
    ) {
        let (s, u) = self.ensure_user(name, now);
        match u {
            Err(e) => (s, Err(e)),
            Ok((id, _)) => {
                let n = s.tokens.filter(valid_of(id)).len() as usize;
                let (t, r) = s.revoke_all(id, now).store_token(
                    id,
                    token_digest(token),
                    Some("self-serve-recovery"@),
                    now,
                );
                match r {
                    Ok(_) => (t, Ok((token, n))),
                    Err(e) => (t, Err(e)),
                }
            },
        }
    }

    /// Revoke one token; the answer is whether a valid one was found.
    pub open spec fn revoke(self, id: i64, now: i64) -> (Self, bool) {
        (
            RegistryView {
                tokens: self.tokens.map_values(
                    |t: TokenView|
                        if t.id == id && t.revoked_at is None {
                            revoked(t, now)
                        } else {
                            t
                        },
                ),
                ..self
            },
            exists|i: int| is_token_id(self.tokens, id, i) && self.tokens[i].revoked_at is None,
        )
    }

    /// The user a token belongs to, unless it is unknown or revoked.
    pub open spec fn authenticate(self, token: Seq<char>) -> Option<WhoView> {
        let hash = token_digest(token);
        if exists|i: int| is_valid_token(self.tokens, hash, i) {
            let t = self.tokens[choose|i: int| is_valid_token(self.tokens, hash, i)];
            Some(WhoView { user_id: t.user_id, name: self.user_by_id(t.user_id).name })
        } else {
            None
        }
    }

    /// Drop a user and everything that belongs to it.
    pub open spec fn without_user(self, id: i64) -> Self {
        RegistryView {
            users: rows::not_of_user::<UserRow>(self.users, id),
            tokens: rows::not_of_user::<TokenRec>(self.tokens, id),
            hosts: rows::not_of_user::<HostRow>(self.hosts, id),
            ports: rows::not_of_user::<PortRow>(self.ports, id),
            ..self
        }
    }

    /// Remove a user; one that still owns something only when forced.
    pub open spec fn remove_user(self, name: Seq<char>, force: bool) -> (Self, Result<(), ErrView>) {
        match self.lookup(name) {
            None => (self, Err(ErrView::NoSuchUser(name))),
            Some(id) => if !force && (self.owned_count(id) > 0 || rows::of_user::<TokenRec>(
                self.tokens,
                id,
            ).len() > 0) {
                (self, Err(ErrView::UserNotEmpty(name)))
            } else {
                (self.without_user(id), Ok(()))
            },
        }
    }

    /// Give up a user's hostnames, and with `ports` the ports too.
    pub open spec fn release(self, name: Seq<char>, ports: bool) -> (
        Self,
        Result<(Seq<Seq<char>>, Seq<u16>), ErrView>,
    ) {
        match self.lookup(name) {
            None => (self, Err(ErrView::NoSuchUser(name))),
            Some(id) => (
                RegistryView {
                    hosts: rows::not_of_user::<HostRow>(self.hosts, id),
                    ports: if ports {
                        rows::not_of_user::<PortRow>(self.ports, id)
                    } else {
                        self.ports
                    },
                    ..self
                },
                Ok(
                    (
                        labels(rows::of_user::<HostRow>(self.hosts, id)),
                        if ports {
                            port_numbers(rows::of_user::<PortRow>(self.ports, id))
                        } else {
                            Seq::empty()
                        },
                    ),
                ),
            ),
        }
    }

    /// Store a hostname row; the label must be free.
    pub open spec fn store_host(self, user: i64, l: Seq<char>, now: i64) -> (
        Self,
        Result<(), ErrView>,
    ) {
        match self.next_host_id() {
            None => (self, Err(ErrView::Db(DbFault::NoIdLeft))),
            Some(id) => (
                RegistryView {
                    hosts: self.hosts.push(
                        HostView { id, user_id: user, label: l, created_at: now },
                    ),
                    ..self
                },
                Ok(()),
            ),
        }
    }

    /// Claim a label from the global pool under an optional cap on what the
    /// user owns.
    pub open spec fn claim(self, user: i64, l: Seq<char>, max: Option<i64>, now: i64) -> (
        Self,
        Result<bool, ErrView>,
    ) {
        match label::label_fault(l) {
            Some(why) => (self, Err(ErrView::InvalidLabel(l, why))),
            None => if self.has_label(l) {
                if self.host(l).user_id == user {
                    (self, Ok(false))
                } else {
                    (self, Err(ErrView::LabelTaken(l)))
                }
            } else if max is Some && self.owned_count(user) >= max->0 {
                (self, Err(ErrView::CapExceeded))
            } else if !self.has_user_id(user) {
                (self, Err(ErrView::LabelTaken(l)))
            } else {
                let (s, r) = self.store_host(user, l, now);
                match r {
                    Ok(_) => (s, Ok(true)),
                    Err(e) => (s, Err(e)),
                }
            },
        }
    }

    /// Grant a label to a user by name.
    pub open spec fn add_hostname(self, l: Seq<char>, user: Seq<char>, now: i64) -> (
        Self,
        Result<(), ErrView>,
    ) {
        match label::label_fault(l) {
            Some(why) => (self, Err(ErrView::InvalidLabel(l, why))),
            None => match self.lookup(user) {
                None => (self, Err(ErrView::NoSuchUser(user))),
                Some(id) => if self.has_label(l) {
                    (self, Err(ErrView::LabelTaken(l)))
                } else {
                    self.store_host(id, l, now)
                },
            },
        }
    }

    /// The token list, by id.
    pub open spec fn token_list(self, user: Option<Seq<char>>) -> Seq<TokenRowView> {
        self.tokens.filter(token_shown(self, user)).map_values(token_row(self))
    }

    /// The hostname list, in no order.
    pub open spec fn host_list(self, user: Option<Seq<char>>) -> Seq<(Seq<char>, Seq<char>)> {
        self.hosts.filter(host_shown(self, user)).map_values(host_pair(self))
    }

    /// Drop the row of a label.
    pub open spec fn remove_hostname(self, l: Seq<char>) -> (Self, bool) {
        (
            RegistryView { hosts: self.hosts.filter(|h: HostView| h.label != l), ..self },
            self.has_label(l),
        )
    }

    /// Reserve a port for a user by name.
    pub open spec fn add_port(self, p: u16, user: Seq<char>, now: i64) -> (
        Self,
        Result<(), ErrView>,
    ) {
        match self.lookup(user) {
            None => (self, Err(ErrView::NoSuchUser(user))),
            Some(id) => if self.has_port(p) {
                (self, Err(ErrView::PortTaken(p)))
            } else {
                (
                    RegistryView {
                        ports: self.ports.filter(below(p)) + seq![
                            PortView { port: p, user_id: id, created_at: now },
                        ] + self.ports.filter(above(p)),
                        ..self
                    },
                    Ok(()),
                )
            },
        }
    }

    /// Drop the row of a port.
    pub open spec fn remove_port(self, p: u16) -> (Self, bool) {
        (
            RegistryView { ports: self.ports.filter(|x: PortView| x.port != p), ..self },
            self.has_port(p),
        )
    }

    /// The label of a hostname that sits directly under the apex and may be
    /// claimed.
    pub open spec fn label_of(self, fqdn: Seq<char>) -> Option<Seq<char>> {
        let suffix = seq!['.'] + self.domain;
        if suffix.is_suffix_of(fqdn) {
            let l = fqdn.take(fqdn.len() - suffix.len());
            if l.len() > 0 && !l.contains('.') && label::label_fault(l) is None {
                Some(l)
            } else {
                None
            }
        } else {
            None
        }
    }

    /// `user` owns the label of this hostname.
    pub open spec fn owns_host(self, user: i64, fqdn: Seq<char>) -> bool {
        match self.label_of(fqdn) {
            Some(l) => self.has_label(l) && self.host(l).user_id == user,
            None => false,
        }
    }

    /// Claim the label of a hostname.
    pub open spec fn claim_host(self, user: i64, fqdn: Seq<char>, max: Option<i64>, now: i64) -> (
        Self,
        ClaimView,
    ) {
        match self.label_of(fqdn) {
            None => (self, ClaimView::Invalid("not a valid hostname under this relay"@)),
            Some(l) => {
                let (s, r) = self.claim(user, l, max, now);
                (
                    s,
                    match r {
                        Ok(_) => ClaimView::Owned,
                        Err(ErrView::LabelTaken(_)) => ClaimView::Taken,
                        Err(ErrView::CapExceeded) => ClaimView::CapExceeded,
                        Err(ErrView::InvalidLabel(_, why)) => ClaimView::Invalid(why),
                        Err(_) => ClaimView::Error,
                    },
                )
            },
        }
    }

    /// Give up a hostname, if `user` owns it.
    pub open spec fn release_host(self, user: i64, fqdn: Seq<char>) -> (Self, bool) {
        if self.owns_host(user, fqdn) {
            (self.remove_hostname(self.label_of(fqdn)->0).0, true)
        } else {
            (self, false)
        }
    }

    /// Give up a port, if `user` owns it.
    pub open spec fn release_one_port(self, user: i64, p: u16) -> (Self, bool) {
        if self.owns_port(user, p) {
            (self.remove_port(p).0, true)
        } else {
            (self, false)
        }
    }

    /// The hostnames `user` owns, in the order of their registration.
    pub open spec fn fqdns_of(self, user: i64) -> Seq<Seq<char>> {
        labels(rows::of_user::<HostRow>(self.hosts, user)).map_values(
            |l: Seq<char>| l + seq!['.'] + self.domain,
        )
    }

    /// `user` reserved this port.
    pub open spec fn owns_port(self, user: i64, p: u16) -> bool {
        self.has_port(p) && self.port(p).user_id == user
    }
}

/// Tokens of one user or of all, as a predicate.
pub open spec fn token_shown(r: RegistryView, user: Option<Seq<char>>) -> spec_fn(TokenView) -> bool {
    |t: TokenView| user is None || user->0 == r.user_by_id(t.user_id).name
}

/// A token as it is listed.
pub open spec fn token_row(r: RegistryView) -> spec_fn(TokenView) -> TokenRowView {
    |t: TokenView|
        TokenRowView {
            id: t.id,
            user: r.user_by_id(t.user_id).name,
            label: t.label,
            created_at: t.created_at,
            revoked: t.revoked_at is Some,
        }
}

/// Hostnames of one user or of all, as a predicate.
pub open spec fn host_shown(r: RegistryView, user: Option<Seq<char>>) -> spec_fn(HostView) -> bool {
    |h: HostView| user is None || user->0 == r.user_by_id(h.user_id).name
}

/// A hostname as it is listed.
pub open spec fn host_pair(r: RegistryView) -> spec_fn(HostView) -> (Seq<char>, Seq<char>) {
    |h: HostView| (h.label, r.user_by_id(h.user_id).name)
}

/// A port as it is listed.
pub open spec fn port_pair(r: RegistryView) -> spec_fn(PortView) -> (u16, Seq<char>) {
    |p: PortView| (p.port, r.user_by_id(p.user_id).name)
}

/// The labels of hostname rows.
pub open spec fn labels(s: Seq<HostView>) -> Seq<Seq<char>> {
    s.map_values(|h: HostView| h.label)
}

/// The numbers of port rows.
pub open spec fn port_numbers(s: Seq<PortView>) -> Seq<u16> {
    s.map_values(|p: PortView| p.port)
}

/// The row of a user name is the only one.
pub proof fn lemma_user(r: RegistryView, name: Seq<char>, i: int)
    requires
        r.wf(),
        is_user(r.users, name, i),
    ensures
        r.has_user(name),
        r.user(name) == r.users[i],
        r.lookup(name) == Some(r.users[i].id),
{
    let j = choose|j: int| is_user(r.users, name, j);
    if i < j {
        assert(UserRow::apart(r.users[i], r.users[j]));
    } else if j < i {
        assert(UserRow::apart(r.users[j], r.users[i]));
    }
}

/// The row of a user id is the only one.
pub proof fn lemma_user_id(r: RegistryView, id: i64, i: int)
    requires
        r.wf(),
        is_user_id(r.users, id, i),
    ensures
        r.has_user_id(id),
        r.user_by_id(id) == r.users[i],
{
    let j = choose|j: int| is_user_id(r.users, id, j);
    if i < j {
        assert(UserRow::apart(r.users[i], r.users[j]));
    } else if j < i {
        assert(UserRow::apart(r.users[j], r.users[i]));
    }
}

/// The row of a label is the only one.
pub proof fn lemma_host(r: RegistryView, l: Seq<char>, i: int)
    requires
        r.wf(),
        is_host(r.hosts, l, i),
    ensures
        r.has_label(l),
        r.host(l) == r.hosts[i],
{
    let j = choose|j: int| is_host(r.hosts, l, j);
    if i < j {
        assert(HostRow::apart(r.hosts[i], r.hosts[j]));
    } else if j < i {
        assert(HostRow::apart(r.hosts[j], r.hosts[i]));
    }
}

/// The row of a hostname id is the only one.
pub proof fn lemma_host_id(r: RegistryView, id: i64, i: int)
    requires
        r.wf(),
        is_host_id(r.hosts, id, i),
    ensures
        r.host_by_id(id) == r.hosts[i],
{
    let j = choose|j: int| is_host_id(r.hosts, id, j);
    if i < j {
        assert(HostRow::apart(r.hosts[i], r.hosts[j]));
    } else if j < i {
        assert(HostRow::apart(r.hosts[j], r.hosts[i]));
    }
}

/// The row of a port is the only one.
pub proof fn lemma_port(r: RegistryView, p: u16, i: int)
    requires
        r.wf(),
        is_port(r.ports, p, i),
    ensures
        r.has_port(p),
        r.port(p) == r.ports[i],
{
    let j = choose|j: int| is_port(r.ports, p, j);
    if i < j {
        assert(PortRow::apart(r.ports[i], r.ports[j]));
    } else if j < i {
        assert(PortRow::apart(r.ports[j], r.ports[i]));
    }
}

/// The valid row of a digest is the only one, and names a stored user.
pub proof fn lemma_token(r: RegistryView, token: Seq<char>, i: int)
    requires
        r.wf(),
        is_valid_token(r.tokens, token_digest(token), i),
    ensures
        r.has_user_id(r.tokens[i].user_id),
        r.authenticate(token) == Some(
            WhoView {
                user_id: r.tokens[i].user_id,
                name: r.user_by_id(r.tokens[i].user_id).name,
            },
        ),
{
    let hash = token_digest(token);
    let j = choose|j: int| is_valid_token(r.tokens, hash, j);
    assert(is_valid_token(r.tokens, hash, j));
    if i < j {
        assert(TokenRec::apart(r.tokens[i], r.tokens[j]));
    } else if j < i {
        assert(TokenRec::apart(r.tokens[j], r.tokens[i]));
    }
}

/// Adding a user keeps the rows consistent.
pub proof fn lemma_add_user_wf(r: RegistryView, name: Seq<char>, now: i64)
    requires
        r.wf(),
    ensures
        r.add_user(name, now).0.wf(),
        forall|id: i64| r.has_user_id(id) ==> #[trigger] r.add_user(name, now).0.has_user_id(id),
        r.add_user(name, now).1 is Ok ==> r.add_user(name, now).0.has_user_id(
            r.add_user(name, now).1->Ok_0,
        ) && r.add_user(name, now).0.lookup(name) == Some(r.add_user(name, now).1->Ok_0),
{
    let (s, a) = r.add_user(name, now);
    if a is Ok {
        let n = r.users.len() as int;
        assert forall|i: int, j: int| 0 <= i < j < s.users.len() implies UserRow::apart(
            #[trigger] s.users[i],
            #[trigger] s.users[j],
        ) by {
            if j < n {
                assert(UserRow::apart(r.users[i], r.users[j]));
            } else {
                if i < n - 1 {
                    assert(UserRow::apart(r.users[i], r.users[n - 1]));
                }
                assert(!is_user(r.users, name, i));
            }
        }
        assert forall|id: i64| r.has_user_id(id) implies #[trigger] s.has_user_id(id) by {
            let i = choose|i: int| is_user_id(r.users, id, i);
            assert(is_user_id(s.users, id, i));
        }
        assert(is_user_id(s.users, a->Ok_0, n));
        assert forall|i: int| 0 <= i < s.tokens.len() implies s.has_user_id(
            (#[trigger] s.tokens[i]).user_id,
        ) by {
            assert(r.has_user_id(r.tokens[i].user_id));
        }
        assert forall|i: int| 0 <= i < s.hosts.len() implies s.has_user_id(
            (#[trigger] s.hosts[i]).user_id,
        ) by {
            assert(r.has_user_id(r.hosts[i].user_id));
        }
        assert forall|i: int| 0 <= i < s.ports.len() implies s.has_user_id(
            (#[trigger] s.ports[i]).user_id,
        ) by {
            assert(r.has_user_id(r.ports[i].user_id));
        }
        lemma_user(s, name, n);
    }
}

/// Finding or adding a user keeps the rows consistent.
pub proof fn lemma_ensure_user_wf(r: RegistryView, name: Seq<char>, now: i64)
    requires
        r.wf(),
    ensures
        r.ensure_user(name, now).0.wf(),
        r.ensure_user(name, now).1 is Ok ==> r.ensure_user(name, now).0.has_user_id(
            r.ensure_user(name, now).1->Ok_0.0,
        ) && r.ensure_user(name, now).0.lookup(name) == Some(r.ensure_user(name, now).1->Ok_0.0),
{
    lemma_add_user_wf(r, name, now);
    if r.has_user(name) {
        let i = choose|i: int| is_user(r.users, name, i);
        lemma_user(r, name, i);
        assert(is_user_id(r.users, r.users[i].id, i));
    }
}

/// Storing a token keeps the rows consistent.
pub proof fn lemma_store_token_wf(
    r: RegistryView,
    user: i64,
    hash: Seq<u8>,
    label: Option<Seq<char>>,
    now: i64,
)
    requires
        r.wf(),
        r.has_user_id(user),
    ensures
        r.store_token(user, hash, label, now).0.wf(),
{
    let (s, a) = r.store_token(user, hash, label, now);
    if a is Ok {
        let n = r.tokens.len() as int;
        assert forall|i: int, j: int| 0 <= i < j < s.tokens.len() implies TokenRec::apart(
            #[trigger] s.tokens[i],
            #[trigger] s.tokens[j],
        ) by {
            assert(s.tokens[i] == r.tokens[i]);
            if j < n {
                assert(TokenRec::apart(r.tokens[i], r.tokens[j]));
            } else if i < n - 1 {
                assert(TokenRec::apart(r.tokens[i], r.tokens[n - 1]));
            }
        }
        lemma_same_users(r, s);
        assert forall|i: int| 0 <= i < s.tokens.len() implies s.has_user_id(
            (#[trigger] s.tokens[i]).user_id,
        ) by {
            if i < n {
                assert(r.has_user_id(r.tokens[i].user_id));
            }
        }
        assert forall|i: int| 0 <= i < s.hosts.len() implies s.has_user_id(
            (#[trigger] s.hosts[i]).user_id,
        ) by {
            assert(r.has_user_id(r.hosts[i].user_id));
        }
        assert forall|i: int| 0 <= i < s.ports.len() implies s.has_user_id(
            (#[trigger] s.ports[i]).user_id,
        ) by {
            assert(r.has_user_id(r.ports[i].user_id));
        }
    }
}

/// Registries with the same users know the same ids and names.
pub proof fn lemma_same_users(r: RegistryView, s: RegistryView)
    requires
        r.users == s.users,
    ensures
        forall|id: i64| #[trigger] r.has_user_id(id) == s.has_user_id(id),
        forall|id: i64| #[trigger] s.has_user_id(id) == r.has_user_id(id),
        forall|n: Seq<char>| #[trigger] r.lookup(n) == s.lookup(n),
{
}

/// Changing only whether tokens are revoked keeps the rows consistent.
pub proof fn lemma_revoked_wf(r: RegistryView, s: RegistryView)
    requires
        r.wf(),
        s == (RegistryView { tokens: s.tokens, ..r }),
        s.tokens.len() == r.tokens.len(),
        forall|i: int|
            0 <= i < r.tokens.len() ==> (#[trigger] s.tokens[i]).id == r.tokens[i].id
                && s.tokens[i].hash == r.tokens[i].hash && s.tokens[i].user_id
                == r.tokens[i].user_id,
    ensures
        s.wf(),
{
    lemma_same_users(r, s);
    assert forall|i: int, j: int| 0 <= i < j < s.tokens.len() implies TokenRec::apart(
        #[trigger] s.tokens[i],
        #[trigger] s.tokens[j],
    ) by {
        assert(TokenRec::apart(r.tokens[i], r.tokens[j]));
    }
    assert forall|i: int| 0 <= i < s.tokens.len() implies s.has_user_id(
        (#[trigger] s.tokens[i]).user_id,
    ) by {
        assert(r.has_user_id(r.tokens[i].user_id));
    }
    assert forall|i: int| 0 <= i < s.hosts.len() implies s.has_user_id(
        (#[trigger] s.hosts[i]).user_id,
    ) by {
        assert(r.has_user_id(r.hosts[i].user_id));
    }
    assert forall|i: int| 0 <= i < s.ports.len() implies s.has_user_id(
        (#[trigger] s.ports[i]).user_id,
    ) by {
        assert(r.has_user_id(r.ports[i].user_id));
    }
}

/// Storing a free label keeps the rows consistent.
pub proof fn lemma_store_host_wf(r: RegistryView, user: i64, l: Seq<char>, now: i64)
    requires
        r.wf(),
        r.has_user_id(user),
        !r.has_label(l),
    ensures
        r.store_host(user, l, now).0.wf(),
{
    let (s, a) = r.store_host(user, l, now);
    if a is Ok {
        let n = r.hosts.len() as int;
        assert forall|i: int, j: int| 0 <= i < j < s.hosts.len() implies HostRow::apart(
            #[trigger] s.hosts[i],
            #[trigger] s.hosts[j],
        ) by {
            assert(s.hosts[i] == r.hosts[i]);
            if j < n {
                assert(HostRow::apart(r.hosts[i], r.hosts[j]));
            } else {
                if i < n - 1 {
                    assert(HostRow::apart(r.hosts[i], r.hosts[n - 1]));
                }
                assert(!is_host(r.hosts, l, i));
            }
        }
        lemma_same_users(r, s);
        assert forall|i: int| 0 <= i < s.hosts.len() implies s.has_user_id(
            (#[trigger] s.hosts[i]).user_id,
        ) by {
            if i < n {
                assert(r.has_user_id(r.hosts[i].user_id));
            }
        }
        assert forall|i: int| 0 <= i < s.tokens.len() implies s.has_user_id(
            (#[trigger] s.tokens[i]).user_id,
        ) by {
            assert(r.has_user_id(r.tokens[i].user_id));
        }
        assert forall|i: int| 0 <= i < s.ports.len() implies s.has_user_id(
            (#[trigger] s.ports[i]).user_id,
        ) by {
            assert(r.has_user_id(r.ports[i].user_id));
        }
    }
}

/// Dropping hostname and port rows keeps the rest consistent.
pub proof fn lemma_filtered_wf(
    r: RegistryView,
    p: spec_fn(HostView) -> bool,
    q: spec_fn(PortView) -> bool,
)
    requires
        r.wf(),
    ensures
        (RegistryView { hosts: r.hosts.filter(p), ports: r.ports.filter(q), ..r }).wf(),
{
    let s = RegistryView { hosts: r.hosts.filter(p), ports: r.ports.filter(q), ..r };
    rows::lemma_pairwise_filter::<HostRow>(r.hosts, p);
    rows::lemma_pairwise_filter::<PortRow>(r.ports, q);
    lemma_same_users(r, s);
    assert forall|i: int| 0 <= i < s.hosts.len() implies s.has_user_id(
        (#[trigger] s.hosts[i]).user_id,
    ) by {
        rows::lemma_filter_source(r.hosts, p, i);
        let a = choose|a: int| 0 <= a < r.hosts.len() && r.hosts[a] == s.hosts[i];
        assert(r.has_user_id(r.hosts[a].user_id));
    }
    assert forall|i: int| 0 <= i < s.ports.len() implies s.has_user_id(
        (#[trigger] s.ports[i]).user_id,
    ) by {
        rows::lemma_filter_source(r.ports, q, i);
        let a = choose|a: int| 0 <= a < r.ports.len() && r.ports[a] == s.ports[i];
        assert(r.has_user_id(r.ports[a].user_id));
    }
    assert forall|i: int| 0 <= i < s.tokens.len() implies s.has_user_id(
        (#[trigger] s.tokens[i]).user_id,
    ) by {
        assert(r.has_user_id(r.tokens[i].user_id));
    }
}

/// Dropping a user with all its rows keeps the rest consistent.
pub proof fn lemma_without_user_wf(r: RegistryView, id: i64)
    requires
        r.wf(),
    ensures
        r.without_user(id).wf(),
{
    let s = r.without_user(id);
    rows::lemma_pairwise_filter::<UserRow>(r.users, rows::not_owned_by::<UserRow>(id));
    rows::lemma_pairwise_filter::<TokenRec>(r.tokens, rows::not_owned_by::<TokenRec>(id));
    rows::lemma_pairwise_filter::<HostRow>(r.hosts, rows::not_owned_by::<HostRow>(id));
    rows::lemma_pairwise_filter::<PortRow>(r.ports, rows::not_owned_by::<PortRow>(id));
    assert forall|u: i64| u != id && r.has_user_id(u) implies #[trigger] s.has_user_id(u) by {
        let i = choose|i: int| is_user_id(r.users, u, i);
        let p = rows::not_owned_by::<UserRow>(id);
        r.users.lemma_filter_contains(p, i);
        let j = choose|j: int| 0 <= j < s.users.len() && s.users[j] == r.users[i];
        assert(is_user_id(s.users, u, j));
    }
    assert forall|i: int| 0 <= i < s.tokens.len() implies s.has_user_id(
        (#[trigger] s.tokens[i]).user_id,
    ) by {
        rows::lemma_filter_source(r.tokens, rows::not_owned_by::<TokenRec>(id), i);
        let a = choose|a: int| 0 <= a < r.tokens.len() && r.tokens[a] == s.tokens[i];
        assert(r.has_user_id(r.tokens[a].user_id));
    }
    assert forall|i: int| 0 <= i < s.hosts.len() implies s.has_user_id(
        (#[trigger] s.hosts[i]).user_id,
    ) by {
        rows::lemma_filter_source(r.hosts, rows::not_owned_by::<HostRow>(id), i);
        let a = choose|a: int| 0 <= a < r.hosts.len() && r.hosts[a] == s.hosts[i];
        assert(r.has_user_id(r.hosts[a].user_id));
    }
    assert forall|i: int| 0 <= i < s.ports.len() implies s.has_user_id(
        (#[trigger] s.ports[i]).user_id,
    ) by {
        rows::lemma_filter_source(r.ports, rows::not_owned_by::<PortRow>(id), i);
        let a = choose|a: int| 0 <= a < r.ports.len() && r.ports[a] == s.ports[i];
        assert(r.has_user_id(r.ports[a].user_id));
    }
}

/// Acquisition order is total.
pub proof fn lemma_age_total()
    ensures
        vstd::relations::total_ordering(age_order()),
{
    let r = age_order();
    assert(vstd::relations::reflexive(r));
    assert(vstd::relations::antisymmetric(r));
    assert(vstd::relations::transitive(r));
    assert(vstd::relations::strongly_connected(r));
}

/// What a user owns by age is what it owns, in ascending order.
pub proof fn lemma_by_age(r: RegistryView, user: i64)
    ensures
        r.by_age(user).to_multiset() == r.owned_slots(user).to_multiset(),
        r.by_age(user).len() == r.owned_slots(user).len(),
        r.by_age(user).len() == r.owned_count(user),
        vstd::relations::sorted_by(r.by_age(user), age_order()),
        forall|s: Slot| r.by_age(user).contains(s) <==> #[trigger] r.owned_slots(user).contains(s),
{
    broadcast use vstd::seq_lib::group_to_multiset_ensures;

    lemma_age_total();
    r.owned_slots(user).lemma_sort_by_ensures(age_order());
    vstd::seq_lib::to_multiset_len(r.by_age(user));
    vstd::seq_lib::to_multiset_len(r.owned_slots(user));
    assert forall|s: Slot| r.by_age(user).contains(s) <==> #[trigger] r.owned_slots(
        user,
    ).contains(s) by {
        assert(r.by_age(user).to_multiset().count(s) == r.owned_slots(user).to_multiset().count(s));
    }
}

/// Any ascending arrangement of what a user owns is the one by age.
pub proof fn lemma_age_unique(r: RegistryView, user: i64, v: Seq<Slot>)
    requires
        v.to_multiset() == r.owned_slots(user).to_multiset(),
        vstd::relations::sorted_by(v, age_order()),
    ensures
        v == r.by_age(user),
{
    lemma_age_total();
    lemma_by_age(r, user);
    vstd::seq_lib::lemma_sorted_unique(v, r.by_age(user), age_order());
}

/// A slot that a user owns stands for one of its rows.
pub proof fn lemma_slot_row(r: RegistryView, user: i64, s: Slot)
    requires
        r.owned_slots(user).contains(s),
    ensures
        !s.is_port ==> exists|i: int|
            is_host_id(r.hosts, s.key, i) && r.hosts[i].user_id == user && host_slot(r.hosts[i])
                == s,
        s.is_port ==> exists|i: int|
            is_port(r.ports, s.key as u16, i) && r.ports[i].user_id == user && port_slot(
                r.ports[i],
            ) == s,
{
    let a = rows::of_user::<HostRow>(r.hosts, user);
    let b = rows::of_user::<PortRow>(r.ports, user);
    let k = choose|k: int| 0 <= k < r.owned_slots(user).len() && r.owned_slots(user)[k] == s;
    if k < a.len() {
        rows::lemma_filter_source(r.hosts, rows::owned_by::<HostRow>(user), k);
        let i = choose|i: int| 0 <= i < r.hosts.len() && r.hosts[i] == a[k];
        assert(is_host_id(r.hosts, s.key, i));
    } else {
        rows::lemma_filter_source(r.ports, rows::owned_by::<PortRow>(user), k - a.len());
        let i = choose|i: int| 0 <= i < r.ports.len() && r.ports[i] == b[k - a.len()];
        assert(is_port(r.ports, s.key as u16, i));
    }
}

/// Ports before position `i` of an ascending table are below `p`, those from
/// there on above: filtering splits there.
pub proof fn lemma_port_split(s: Seq<PortView>, p: u16, i: int)
    requires
        rows::pairwise::<PortRow>(s),
        0 <= i <= s.len(),
        forall|j: int| 0 <= j < i ==> (#[trigger] s[j]).port < p,
        forall|j: int| i <= j < s.len() ==> (#[trigger] s[j]).port > p,
    ensures
        s.filter(below(p)) == s.take(i),
        s.filter(above(p)) == s.skip(i),
{
    let a = s.take(i);
    let b = s.skip(i);
    assert(a + b =~= s);
    Seq::filter_distributes_over_add(a, b, below(p));
    Seq::filter_distributes_over_add(a, b, above(p));
    rows::lemma_filter_all(a, below(p));
    rows::lemma_filter_none(b, below(p));
    rows::lemma_filter_none(a, above(p));
    rows::lemma_filter_all(b, above(p));
    assert(s.filter(below(p)) =~= a);
    assert(s.filter(above(p)) =~= b);
}

/// Reserving a free port at its place keeps the rows consistent.
pub proof fn lemma_add_port_wf(r: RegistryView, p: u16, user: i64, now: i64, i: int)
    requires
        r.wf(),
        r.has_user_id(user),
        0 <= i <= r.ports.len(),
        forall|j: int| 0 <= j < i ==> (#[trigger] r.ports[j]).port < p,
        forall|j: int| i <= j < r.ports.len() ==> (#[trigger] r.ports[j]).port > p,
    ensures
        (RegistryView {
            ports: r.ports.take(i) + seq![PortView { port: p, user_id: user, created_at: now }]
                + r.ports.skip(i),
            ..r
        }).wf(),
{
    let s = RegistryView {
        ports: r.ports.take(i) + seq![PortView { port: p, user_id: user, created_at: now }]
            + r.ports.skip(i),
        ..r
    };
    lemma_same_users(r, s);
    assert forall|a: int, b: int| 0 <= a < b < s.ports.len() implies PortRow::apart(
        #[trigger] s.ports[a],
        #[trigger] s.ports[b],
    ) by {
        let a2 = if a < i {
            a
        } else {
            a - 1
        };
        let b2 = if b < i {
            b
        } else {
            b - 1
        };
        if a == i {
            assert(s.ports[b] == r.ports[b2]);
        } else if b == i {
            assert(s.ports[a] == r.ports[a2]);
        } else {
            assert(s.ports[a] == r.ports[a2]);
            assert(s.ports[b] == r.ports[b2]);
            assert(PortRow::apart(r.ports[a2], r.ports[b2]));
        }
    }
    assert forall|k: int| 0 <= k < s.ports.len() implies s.has_user_id(
        (#[trigger] s.ports[k]).user_id,
    ) by {
        if k < i {
            assert(s.ports[k] == r.ports[k]);
            assert(r.has_user_id(r.ports[k].user_id));
        } else if k > i {
            assert(s.ports[k] == r.ports[k - 1]);
            assert(r.has_user_id(r.ports[k - 1].user_id));
        }
    }
    assert forall|k: int| 0 <= k < s.tokens.len() implies s.has_user_id(
        (#[trigger] s.tokens[k]).user_id,
    ) by {
        assert(r.has_user_id(r.tokens[k].user_id));
    }
    assert forall|k: int| 0 <= k < s.hosts.len() implies s.has_user_id(
        (#[trigger] s.hosts[k]).user_id,
    ) by {
        assert(r.has_user_id(r.hosts[k].user_id));
    }
}

} // verus!
