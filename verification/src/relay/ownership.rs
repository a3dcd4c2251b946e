//! What the registry promises across operations.
use vstd::prelude::*;

use crate::relay::label;
use crate::relay::ledger;
use crate::relay::ledger::{RegistryView, WhoView};
use crate::relay::rows;
use crate::relay::rows::{HostRow, PortRow, Row, Slot, TokenRec};

verus! {

/// Whether and as whom a token authenticates depends on the users and on the
/// one row of its digest.
proof fn lemma_auth_by_row(r: RegistryView, s: RegistryView, token: Seq<char>)
    requires
        r.wf(),
        s.wf(),
        forall|id: i64| r.has_user_id(id) ==> #[trigger] s.has_user_id(id) && s.user_by_id(id)
            == r.user_by_id(id),
        forall|i: int|
            ledger::is_valid_token(r.tokens, ledger::token_digest(token), i) ==> exists|j: int|
                #[trigger] ledger::is_valid_token(s.tokens, ledger::token_digest(token), j)
                    && s.tokens[j].user_id == r.tokens[i].user_id,
        r.authenticate(token) is Some,
    ensures
        s.authenticate(token) == r.authenticate(token),
{
    let hash = ledger::token_digest(token);
    let i = choose|i: int| ledger::is_valid_token(r.tokens, hash, i);
    ledger::lemma_token(r, token, i);
    let j = choose|j: int| #[trigger]
        ledger::is_valid_token(s.tokens, hash, j) && s.tokens[j].user_id == r.tokens[i].user_id;
    ledger::lemma_token(s, token, j);
}

/// Adding a user leaves the others as they are.
proof fn lemma_users_grow(r: RegistryView, name: Seq<char>, now: i64)
    requires
        r.wf(),
    ensures
        r.ensure_user(name, now).0.wf(),
        r.ensure_user(name, now).0.tokens == r.tokens,
        forall|id: i64| r.has_user_id(id) ==> #[trigger] r.ensure_user(name, now).0.has_user_id(id)
            && r.ensure_user(name, now).0.user_by_id(id) == r.user_by_id(id),
{
    let s = r.ensure_user(name, now).0;
    ledger::lemma_ensure_user_wf(r, name, now);
    assert forall|id: i64| r.has_user_id(id) implies #[trigger] s.has_user_id(id) && s.user_by_id(
        id,
    ) == r.user_by_id(id) by {
        let i = choose|i: int| ledger::is_user_id(r.users, id, i);
        assert(ledger::is_user_id(s.users, id, i));
        ledger::lemma_user_id(r, id, i);
        ledger::lemma_user_id(s, id, i);
    }
}

/// A token that was just stored authenticates as its user, and every token
/// that authenticated before still does, as the same user.
pub proof fn stored_token_authenticates(
    r: RegistryView,
    user: i64,
    token: Seq<char>,
    label: Option<Seq<char>>,
    now: i64,
)
    requires
        r.wf(),
        r.has_user_id(user),
        r.store_token(user, ledger::token_digest(token), label, now).1 is Ok,
    ensures
        r.store_token(user, ledger::token_digest(token), label, now).0.authenticate(token) == Some(
            WhoView { user_id: user, name: r.user_by_id(user).name },
        ),
        forall|t: Seq<char>|
            r.authenticate(t) is Some ==> #[trigger] r.store_token(
                user,
                ledger::token_digest(token),
                label,
                now,
            ).0.authenticate(t) == r.authenticate(t),
{
    let hash = ledger::token_digest(token);
    let s = r.store_token(user, hash, label, now).0;
    ledger::lemma_store_token_wf(r, user, hash, label, now);
    ledger::lemma_same_users(r, s);
    let n = r.tokens.len() as int;
    assert(ledger::is_valid_token(s.tokens, hash, n));
    ledger::lemma_token(s, token, n);
    let i = choose|i: int| ledger::is_user_id(r.users, user, i);
    ledger::lemma_user_id(r, user, i);
    ledger::lemma_user_id(s, user, i);
    assert forall|t: Seq<char>| r.authenticate(t) is Some implies #[trigger] s.authenticate(t)
        == r.authenticate(t) by {
        let h = ledger::token_digest(t);
        assert forall|a: int| ledger::is_valid_token(r.tokens, h, a) implies exists|b: int|
            #[trigger]
            ledger::is_valid_token(s.tokens, h, b) && s.tokens[b].user_id
                == r.tokens[a].user_id by {
            assert(ledger::is_valid_token(s.tokens, h, a));
        }
        assert forall|id: i64| r.has_user_id(id) implies #[trigger] s.has_user_id(id)
            && s.user_by_id(id) == r.user_by_id(id) by {
            let i = choose|i: int| ledger::is_user_id(r.users, id, i);
            ledger::lemma_user_id(r, id, i);
            ledger::lemma_user_id(s, id, i);
        }
        lemma_auth_by_row(r, s, t);
    }
}

/// Provisioning adds a credential: the new token authenticates as the named
/// user, and every token that was valid before still is.
pub proof fn provisioning_adds_a_credential(
    r: RegistryView,
    name: Seq<char>,
    token: Seq<char>,
    now: i64,
)
    requires
        r.wf(),
        r.provision(name, token, now).1 is Ok,
    ensures
        r.provision(name, token, now).0.authenticate(token) is Some,
        r.provision(name, token, now).0.authenticate(token)->0.name == name,
        forall|t: Seq<char>|
            r.authenticate(t) is Some ==> #[trigger] r.provision(name, token, now).0.authenticate(t)
                == r.authenticate(t),
{
    let s = r.ensure_user(name, now).0;
    let id = r.ensure_user(name, now).1->Ok_0.0;
    lemma_users_grow(r, name, now);
    ledger::lemma_ensure_user_wf(r, name, now);
    stored_token_authenticates(s, id, token, Some("self-serve"@), now);
    let i = choose|i: int| ledger::is_user(s.users, name, i);
    ledger::lemma_user(s, name, i);
    ledger::lemma_user_id(s, id, i);
    assert forall|t: Seq<char>| r.authenticate(t) is Some implies #[trigger] r.provision(
        name,
        token,
        now,
    ).0.authenticate(t) == r.authenticate(t) by {
        lemma_auth_by_row(r, s, t);
    }
}

/// Rotation leaves one credential: afterwards a token authenticates as the
/// named user exactly if it has the digest of the fresh one.
pub proof fn rotation_leaves_one_credential(
    r: RegistryView,
    name: Seq<char>,
    token: Seq<char>,
    now: i64,
)
    requires
        r.wf(),
        r.rotate(name, token, now).1 is Ok,
    ensures
        r.rotate(name, token, now).0.authenticate(token) is Some,
        r.rotate(name, token, now).0.authenticate(token)->0.name == name,
        forall|t: Seq<char>|
            ({
                let who = #[trigger] r.rotate(name, token, now).0.authenticate(t);
                who is Some && who->0.name == name ==> ledger::token_digest(t)
                    == ledger::token_digest(token)
            }),
{
    let s = r.ensure_user(name, now).0;
    let id = r.ensure_user(name, now).1->Ok_0.0;
    lemma_users_grow(r, name, now);
    ledger::lemma_ensure_user_wf(r, name, now);
    let m = s.revoke_all(id, now);
    ledger::lemma_revoked_wf(s, m);
    ledger::lemma_same_users(s, m);
    let hash = ledger::token_digest(token);
    let after = m.store_token(id, hash, Some("self-serve-recovery"@), now).0;
    stored_token_authenticates(m, id, token, Some("self-serve-recovery"@), now);
    ledger::lemma_store_token_wf(m, id, hash, Some("self-serve-recovery"@), now);
    ledger::lemma_same_users(m, after);
    let i = choose|i: int| ledger::is_user(s.users, name, i);
    ledger::lemma_user(s, name, i);
    ledger::lemma_user_id(m, id, i);
    assert forall|t: Seq<char>|
        ({
            let who = #[trigger] after.authenticate(t);
            who is Some && who->0.name == name ==> ledger::token_digest(t) == hash
        }) by {
        let h = ledger::token_digest(t);
        if after.authenticate(t) is Some && after.authenticate(t)->0.name == name {
            let k = choose|k: int| ledger::is_valid_token(after.tokens, h, k);
            assert(ledger::is_valid_token(after.tokens, h, k));
            ledger::lemma_token(after, t, k);
            let u = after.tokens[k].user_id;
            let a = choose|a: int| ledger::is_user_id(after.users, u, a);
            ledger::lemma_user_id(after, u, a);
            ledger::lemma_user(after, name, a);
            ledger::lemma_user(after, name, i);
            assert(u == id);
            if k < s.tokens.len() {
                assert(after.tokens[k] == m.tokens[k]);
                assert(ledger::valid_of(id)(s.tokens[k]) ==> m.tokens[k].revoked_at is Some);
            }
        }
    }
}

/// Rotation touches one account: tokens of every other user authenticate as
/// before.
pub proof fn rotation_spares_others(
    r: RegistryView,
    name: Seq<char>,
    token: Seq<char>,
    now: i64,
    t: Seq<char>,
)
    requires
        r.wf(),
        r.rotate(name, token, now).1 is Ok,
        r.authenticate(t) is Some,
        r.authenticate(t)->0.name != name,
    ensures
        r.rotate(name, token, now).0.authenticate(t) == r.authenticate(t),
{
    let s = r.ensure_user(name, now).0;
    let id = r.ensure_user(name, now).1->Ok_0.0;
    lemma_users_grow(r, name, now);
    ledger::lemma_ensure_user_wf(r, name, now);
    lemma_auth_by_row(r, s, t);
    let m = s.revoke_all(id, now);
    ledger::lemma_revoked_wf(s, m);
    ledger::lemma_same_users(s, m);
    let h = ledger::token_digest(t);
    let i = choose|i: int| ledger::is_user(s.users, name, i);
    ledger::lemma_user(s, name, i);
    ledger::lemma_user_id(s, id, i);
    assert forall|id: i64| s.has_user_id(id) implies #[trigger] m.has_user_id(id) && m.user_by_id(
        id,
    ) == s.user_by_id(id) by {
        let i = choose|i: int| ledger::is_user_id(s.users, id, i);
        ledger::lemma_user_id(s, id, i);
        ledger::lemma_user_id(m, id, i);
    }
    assert forall|a: int| ledger::is_valid_token(s.tokens, h, a) implies exists|b: int| #[trigger]
        ledger::is_valid_token(m.tokens, h, b) && m.tokens[b].user_id == s.tokens[a].user_id by {
        ledger::lemma_token(s, t, a);
        assert(s.tokens[a].user_id != id);
        assert(!ledger::valid_of(id)(s.tokens[a]));
        assert(ledger::is_valid_token(m.tokens, h, a));
    }
    lemma_auth_by_row(s, m, t);
    stored_token_authenticates(m, id, token, Some("self-serve-recovery"@), now);
}

/// A revoked token does not authenticate, and is answered exactly as one that
/// was never issued.
pub proof fn revoked_token_is_dead(r: RegistryView, id: i64, now: i64, t: Seq<char>, i: int)
    requires
        r.wf(),
        ledger::is_token_id(r.tokens, id, i),
        r.tokens[i].hash == ledger::token_digest(t),
    ensures
        r.revoke(id, now).0.authenticate(t) is None,
{
    let s = r.revoke(id, now).0;
    let h = ledger::token_digest(t);
    if exists|k: int| ledger::is_valid_token(s.tokens, h, k) {
        let k = choose|k: int| ledger::is_valid_token(s.tokens, h, k);
        assert(ledger::is_valid_token(s.tokens, h, k));
        if k < i {
            assert(TokenRec::apart(r.tokens[k], r.tokens[i]));
        } else if i < k {
            assert(TokenRec::apart(r.tokens[i], r.tokens[k]));
        }
    }
}

/// Revoking a token changes the answer to no other, is shown in its row, and is
/// done once: a second revocation finds nothing to revoke.
pub proof fn revocation_spares_others(
    r: RegistryView,
    id: i64,
    now: i64,
    later: i64,
    t: Seq<char>,
    i: int,
    u: Seq<char>,
)
    requires
        r.wf(),
        ledger::is_token_id(r.tokens, id, i),
        r.tokens[i].hash == ledger::token_digest(t),
        ledger::token_digest(u) != ledger::token_digest(t),
    ensures
        r.revoke(id, now).0.authenticate(u) == r.authenticate(u),
        r.revoke(id, now).1 == r.tokens[i].revoked_at is None,
        ledger::is_token_id(r.revoke(id, now).0.tokens, id, i),
        ledger::token_row(r.revoke(id, now).0)(r.revoke(id, now).0.tokens[i]).revoked,
        r.revoke(id, now).0.revoke(id, later) == (r.revoke(id, now).0, false),
{
    let s = r.revoke(id, now).0;
    let h = ledger::token_digest(u);
    ledger::lemma_revoked_wf(r, s);
    assert forall|k: int| ledger::is_token_id(r.tokens, id, k) implies k == i by {
        if k < i {
            assert(TokenRec::apart(r.tokens[k], r.tokens[i]));
        } else if i < k {
            assert(TokenRec::apart(r.tokens[i], r.tokens[k]));
        }
    }
    assert forall|k: int| ledger::is_valid_token(s.tokens, h, k) == ledger::is_valid_token(
        r.tokens,
        h,
        k,
    ) by {
        if 0 <= k < r.tokens.len() && r.tokens[k].id == id {
            assert(ledger::is_token_id(r.tokens, id, k));
        }
    }
    if exists|k: int| ledger::is_valid_token(r.tokens, h, k) {
        let k = choose|k: int| ledger::is_valid_token(r.tokens, h, k);
        ledger::lemma_token(r, u, k);
        ledger::lemma_token(s, u, k);
    }
    assert forall|k: int| ledger::is_token_id(s.tokens, id, k) implies s.tokens[k].revoked_at
        is Some by {
        assert(ledger::is_token_id(r.tokens, id, k));
    }
    let again = s.revoke(id, later).0;
    assert forall|k: int| 0 <= k < s.tokens.len() implies again.tokens[k] == s.tokens[k] by {
        if s.tokens[k].id == id {
            assert(ledger::is_token_id(s.tokens, id, k));
        }
    }
    assert(again.tokens =~= s.tokens);
}

/// An operation on the registry.
pub enum Step {
    AddUser { name: Seq<char>, now: i64 },
    RemoveUser { name: Seq<char>, force: bool },
    Create { user: Seq<char>, label: Option<Seq<char>>, token: Seq<char>, now: i64 },
    Provision { name: Seq<char>, token: Seq<char>, now: i64 },
    Rotate { name: Seq<char>, token: Seq<char>, now: i64 },
    Revoke { id: i64, now: i64 },
    Release { name: Seq<char>, ports: bool },
    Claim { user: i64, label: Seq<char>, max: Option<i64>, now: i64 },
    ClaimHost { user: i64, fqdn: Seq<char>, max: Option<i64>, now: i64 },
    ReleaseHost { user: i64, fqdn: Seq<char> },
    ReleasePort { user: i64, port: u16 },
    AddHostname { label: Seq<char>, user: Seq<char>, now: i64 },
    RemoveHostname { label: Seq<char> },
    AddPort { port: u16, user: Seq<char>, now: i64 },
    RemovePort { port: u16 },
    Prune { user: i64, cap: i64 },
}

impl Step {
    /// The registry after the operation.
    pub open spec fn apply(self, r: RegistryView) -> RegistryView {
        match self {
            Step::AddUser { name, now } => r.add_user(name, now).0,
            Step::RemoveUser { name, force } => r.remove_user(name, force).0,
            Step::Create { user, label, token, now } => r.create_token(user, label, token, now).0,
            Step::Provision { name, token, now } => r.provision(name, token, now).0,
            Step::Rotate { name, token, now } => r.rotate(name, token, now).0,
            Step::Revoke { id, now } => r.revoke(id, now).0,
            Step::Release { name, ports } => r.release(name, ports).0,
            Step::Claim { user, label, max, now } => r.claim(user, label, max, now).0,
            Step::ClaimHost { user, fqdn, max, now } => r.claim_host(user, fqdn, max, now).0,
            Step::ReleaseHost { user, fqdn } => r.release_host(user, fqdn).0,
            Step::ReleasePort { user, port } => r.release_one_port(user, port).0,
            Step::AddHostname { label, user, now } => r.add_hostname(label, user, now).0,
            Step::RemoveHostname { label } => r.remove_hostname(label).0,
            Step::AddPort { port, user, now } => r.add_port(port, user, now).0,
            Step::RemovePort { port } => r.remove_port(port).0,
            Step::Prune { user, cap } => r.prune(user, cap).0,
        }
    }

    /// The operation stores a token of this digest if it can.
    pub open spec fn mints(self, hash: Seq<u8>) -> bool {
        match self {
            Step::Create { token, .. } => ledger::token_digest(token) == hash,
            Step::Provision { token, .. } => ledger::token_digest(token) == hash,
            Step::Rotate { token, .. } => ledger::token_digest(token) == hash,
            _ => false,
        }
    }
}

/// A row of this digest is stored, valid or revoked.
pub open spec fn known(r: RegistryView, hash: Seq<u8>) -> bool {
    exists|i: int| 0 <= i < r.tokens.len() && (#[trigger] r.tokens[i]).hash == hash
}

/// A valid row of this digest is stored.
pub open spec fn is_live(r: RegistryView, hash: Seq<u8>) -> bool {
    exists|i: int| ledger::is_valid_token(r.tokens, hash, i)
}

/// Storing a token makes no other one valid, and not one whose digest is known.
proof fn lemma_store_revives_nothing(
    r: RegistryView,
    user: i64,
    stored: Seq<u8>,
    label: Option<Seq<char>>,
    now: i64,
    hash: Seq<u8>,
)
    requires
        !is_live(r, hash),
        stored == hash ==> known(r, hash),
    ensures
        !is_live(r.store_token(user, stored, label, now).0, hash),
{
    let s = r.store_token(user, stored, label, now).0;
    if is_live(s, hash) {
        let k = choose|k: int| ledger::is_valid_token(s.tokens, hash, k);
        if k < r.tokens.len() {
            assert(ledger::is_valid_token(r.tokens, hash, k));
        }
    }
}

/// No operation makes a token valid again: a token that does not authenticate
/// still does not after any operation, unless that one stores it anew, which it
/// cannot while its row is there.
pub proof fn nothing_revives_a_token(r: RegistryView, step: Step, t: Seq<char>)
    requires
        r.authenticate(t) is None,
        step.mints(ledger::token_digest(t)) ==> known(r, ledger::token_digest(t)),
    ensures
        step.apply(r).authenticate(t) is None,
{
    let hash = ledger::token_digest(t);
    let s = step.apply(r);
    match step {
        Step::RemoveUser { name, force } => {
            if is_live(s, hash) {
                let k = choose|k: int| ledger::is_valid_token(s.tokens, hash, k);
                if s.tokens != r.tokens {
                    let id = r.lookup(name)->0;
                    rows::lemma_filter_source(r.tokens, rows::not_owned_by::<TokenRec>(id), k);
                    let a = choose|a: int| 0 <= a < r.tokens.len() && r.tokens[a] == s.tokens[k];
                    assert(ledger::is_valid_token(r.tokens, hash, a));
                } else {
                    assert(ledger::is_valid_token(r.tokens, hash, k));
                }
            }
        },
        Step::Create { user, label, token, now } => {
            if r.lookup(user) is Some {
                lemma_store_revives_nothing(
                    r,
                    r.lookup(user)->0,
                    ledger::token_digest(token),
                    label,
                    now,
                    hash,
                );
            }
        },
        Step::Provision { name, token, now } => {
            let (m, u) = r.ensure_user(name, now);
            if u is Ok {
                lemma_store_revives_nothing(
                    m,
                    u->Ok_0.0,
                    ledger::token_digest(token),
                    Some("self-serve"@),
                    now,
                    hash,
                );
            }
        },
        Step::Rotate { name, token, now } => {
            let (m, u) = r.ensure_user(name, now);
            assert(m.tokens == r.tokens);
            if u is Ok {
                let id = u->Ok_0.0;
                let v = m.revoke_all(id, now);
                if is_live(v, hash) {
                    let k = choose|k: int| ledger::is_valid_token(v.tokens, hash, k);
                    assert(ledger::is_valid_token(r.tokens, hash, k));
                }
                if known(r, hash) {
                    let k = choose|k: int|
                        0 <= k < r.tokens.len() && (#[trigger] r.tokens[k]).hash == hash;
                    assert(v.tokens[k].hash == hash);
                }
                lemma_store_revives_nothing(
                    v,
                    id,
                    ledger::token_digest(token),
                    Some("self-serve-recovery"@),
                    now,
                    hash,
                );
            } else {
                assert(is_live(m, hash) == is_live(r, hash));
            }
        },
        Step::Revoke { id, now } => {
            if is_live(s, hash) {
                let k = choose|k: int| ledger::is_valid_token(s.tokens, hash, k);
                assert(ledger::is_valid_token(r.tokens, hash, k));
            }
        },
        _ => {},
    }
}

/// The registry after a list of operations.
pub open spec fn after_steps(r: RegistryView, steps: Seq<Step>) -> RegistryView
    decreases steps.len(),
{
    if steps.len() == 0 {
        r
    } else {
        steps.last().apply(after_steps(r, steps.drop_last()))
    }
}

/// A revoked token never authenticates again, whatever is done to the registry
/// afterwards. Only the very same token, minted once more after its row went
/// with its user, would be another matter.
pub proof fn revoked_token_stays_dead(
    r: RegistryView,
    id: i64,
    now: i64,
    t: Seq<char>,
    i: int,
    steps: Seq<Step>,
)
    requires
        r.wf(),
        ledger::is_token_id(r.tokens, id, i),
        r.tokens[i].hash == ledger::token_digest(t),
        forall|k: int|
            0 <= k < steps.len() && (#[trigger] steps[k]).mints(ledger::token_digest(t)) ==> known(
                after_steps(r.revoke(id, now).0, steps.take(k)),
                ledger::token_digest(t),
            ),
    ensures
        after_steps(r.revoke(id, now).0, steps).authenticate(t) is None,
    decreases steps.len(),
{
    let s = r.revoke(id, now).0;
    if steps.len() == 0 {
        revoked_token_is_dead(r, id, now, t, i);
    } else {
        let before = steps.drop_last();
        assert forall|k: int|
            0 <= k < before.len() && (#[trigger] before[k]).mints(
                ledger::token_digest(t),
            ) implies known(after_steps(s, before.take(k)), ledger::token_digest(t)) by {
            assert(before.take(k) =~= steps.take(k));
        }
        revoked_token_stays_dead(r, id, now, t, i, before);
        assert(steps.take(steps.len() - 1) =~= before);
        nothing_revives_a_token(after_steps(s, before), steps.last(), t);
    }
}

proof fn lemma_push_count<T: Row>(s: Seq<T::V>, x: T::V, user: i64)
    ensures
        rows::of_user::<T>(s.push(x), user).len() == rows::of_user::<T>(s, user).len() + (
        if T::owner(x) == user {
            1nat
        } else {
            0nat
        }),
{
    reveal(Seq::filter);
    assert(s.push(x).drop_last() =~= s);
}

/// A claim under a cap never takes an account past it: a granted label leaves
/// the account with at most `m` resources, and a refused claim changes
/// nothing.
pub proof fn cap_is_never_exceeded(r: RegistryView, user: i64, l: Seq<char>, m: i64, now: i64)
    requires
        r.wf(),
    ensures
        ({
            let (s, a) = r.claim(user, l, Some(m), now);
            if a == Ok::<bool, ledger::ErrView>(true) {
                &&& s.owned_count(user) == r.owned_count(user) + 1
                &&& s.owned_count(user) <= m
            } else {
                s == r
            }
        }),
        forall|u: i64|
            u != user ==> #[trigger] r.claim(user, l, Some(m), now).0.owned_count(u)
                == r.owned_count(u),
{
    let (s, a) = r.claim(user, l, Some(m), now);
    if a == Ok::<bool, ledger::ErrView>(true) {
        lemma_push_count::<HostRow>(r.hosts, s.hosts.last(), user);
        assert(s.hosts =~= r.hosts.push(s.hosts.last()));
        assert forall|u: i64| u != user implies #[trigger] s.owned_count(u) == r.owned_count(u) by {
            lemma_push_count::<HostRow>(r.hosts, s.hosts.last(), u);
        }
    }
}

/// Claiming again what one owns is answered `Ok(false)` whatever the cap, and
/// the same label is refused to everyone else.
pub proof fn claimed_label_has_one_owner(
    r: RegistryView,
    user: i64,
    l: Seq<char>,
    max: Option<i64>,
    now: i64,
)
    requires
        r.wf(),
        r.claim(user, l, max, now).1 is Ok,
    ensures
        forall|m: Option<i64>, later: i64| #[trigger]
            r.claim(user, l, max, now).0.claim(user, l, m, later) == (
                r.claim(user, l, max, now).0,
                Ok::<bool, ledger::ErrView>(false),
            ),
        forall|u: i64, m: Option<i64>, later: i64|
            u != user ==> #[trigger] r.claim(user, l, max, now).0.claim(u, l, m, later) == (
                r.claim(user, l, max, now).0,
                Err::<bool, ledger::ErrView>(ledger::ErrView::LabelTaken(l)),
            ),
{
    let (s, a) = r.claim(user, l, max, now);
    if a->Ok_0 {
        ledger::lemma_store_host_wf(r, user, l, now);
        let n = r.hosts.len() as int;
        assert(ledger::is_host(s.hosts, l, n));
        ledger::lemma_host(s, l, n);
    }
}

/// What a release gives back is free again: nobody owns a released label, and
/// the account owns no hostname.
pub proof fn released_labels_are_free(r: RegistryView, name: Seq<char>, ports: bool)
    requires
        r.wf(),
        r.release(name, ports).1 is Ok,
    ensures
        forall|i: int|
            0 <= i < r.release(name, ports).1->Ok_0.0.len() ==> !r.release(name, ports).0.has_label(
                #[trigger] r.release(name, ports).1->Ok_0.0[i],
            ),
        rows::of_user::<HostRow>(r.release(name, ports).0.hosts, r.lookup(name)->0).len() == 0,
        ports ==> r.release(name, ports).0.owned_count(r.lookup(name)->0) == 0,
        r.release(name, ports).0.tokens == r.tokens,
        r.release(name, ports).0.users == r.users,
{
    let id = r.lookup(name)->0;
    let (s, a) = r.release(name, ports);
    let mine = rows::of_user::<HostRow>(r.hosts, id);
    let p = rows::owned_by::<HostRow>(id);
    let q = rows::not_owned_by::<HostRow>(id);
    assert forall|i: int| 0 <= i < a->Ok_0.0.len() implies !s.has_label(
        #[trigger] a->Ok_0.0[i],
    ) by {
        let l = a->Ok_0.0[i];
        rows::lemma_filter_source(r.hosts, p, i);
        let x = choose|x: int| 0 <= x < r.hosts.len() && r.hosts[x] == mine[i];
        if s.has_label(l) {
            let k = choose|k: int| ledger::is_host(s.hosts, l, k);
            rows::lemma_filter_source(r.hosts, q, k);
            let y = choose|y: int| 0 <= y < r.hosts.len() && r.hosts[y] == s.hosts[k];
            if x < y {
                assert(HostRow::apart(r.hosts[x], r.hosts[y]));
            } else if y < x {
                assert(HostRow::apart(r.hosts[y], r.hosts[x]));
            }
        }
    }
    assert forall|i: int| 0 <= i < s.hosts.len() implies !p(#[trigger] s.hosts[i]) by {
        rows::lemma_filter_source(r.hosts, q, i);
    }
    rows::lemma_filter_none(s.hosts, p);
    if ports {
        let p2 = rows::owned_by::<PortRow>(id);
        assert forall|i: int| 0 <= i < s.ports.len() implies !p2(#[trigger] s.ports[i]) by {
            rows::lemma_filter_source(r.ports, rows::not_owned_by::<PortRow>(id), i);
        }
        rows::lemma_filter_none(s.ports, p2);
    }
}

/// A row of a user is among its slots.
proof fn lemma_row_slot(r: RegistryView, user: i64)
    ensures
        forall|i: int|
            0 <= i < r.hosts.len() && (#[trigger] r.hosts[i]).user_id == user ==> r.owned_slots(
                user,
            ).contains(ledger::host_slot(r.hosts[i])),
        forall|i: int|
            0 <= i < r.ports.len() && (#[trigger] r.ports[i]).user_id == user ==> r.owned_slots(
                user,
            ).contains(ledger::port_slot(r.ports[i])),
{
    let a = rows::of_user::<HostRow>(r.hosts, user);
    let b = rows::of_user::<PortRow>(r.ports, user);
    let p = rows::owned_by::<HostRow>(user);
    let q = rows::owned_by::<PortRow>(user);
    assert forall|i: int| 0 <= i < r.hosts.len() && (#[trigger] r.hosts[i]).user_id == user implies
        r.owned_slots(user).contains(ledger::host_slot(r.hosts[i])) by {
        r.hosts.lemma_filter_contains(p, i);
        let k = choose|k: int| 0 <= k < a.len() && a[k] == r.hosts[i];
        assert(r.owned_slots(user)[k] == ledger::host_slot(r.hosts[i]));
    }
    assert forall|i: int| 0 <= i < r.ports.len() && (#[trigger] r.ports[i]).user_id == user implies
        r.owned_slots(user).contains(ledger::port_slot(r.ports[i])) by {
        r.ports.lemma_filter_contains(q, i);
        let k = choose|k: int| 0 <= k < b.len() && b[k] == r.ports[i];
        assert(r.owned_slots(user)[a.len() + k] == ledger::port_slot(r.ports[i]));
    }
}

/// No two resources of a user have the same slot.
proof fn lemma_slots_distinct(r: RegistryView, user: i64)
    requires
        r.wf(),
    ensures
        r.owned_slots(user).no_duplicates(),
{
    let a = rows::of_user::<HostRow>(r.hosts, user);
    let b = rows::of_user::<PortRow>(r.ports, user);
    rows::lemma_pairwise_filter::<HostRow>(r.hosts, rows::owned_by::<HostRow>(user));
    rows::lemma_pairwise_filter::<PortRow>(r.ports, rows::owned_by::<PortRow>(user));
    let s = r.owned_slots(user);
    assert forall|i: int, j: int| 0 <= i < s.len() && 0 <= j < s.len() && i != j implies s[i]
        != s[j] by {
        let lo = if i < j {
            i
        } else {
            j
        };
        let hi = if i < j {
            j
        } else {
            i
        };
        if hi < a.len() {
            assert(HostRow::apart(a[lo], a[hi]));
        } else if lo >= a.len() {
            assert(PortRow::apart(b[lo - a.len()], b[hi - a.len()]));
        }
    }
}

/// Pruning keeps the oldest: the account keeps as many resources as the cap
/// allows, everything kept was acquired before everything dropped, and no
/// other account is touched.
pub proof fn pruning_keeps_the_oldest(r: RegistryView, user: i64, cap: i64)
    requires
        r.wf(),
    ensures
        ({
            let keep: int = if cap < 0 {
                0
            } else {
                cap as int
            };
            let s = r.prune(user, cap).0;
            &&& s.owned_count(user) == (if r.owned_count(user) <= keep {
                r.owned_count(user) as int
            } else {
                keep
            })
            &&& forall|x: Slot, y: Slot|
                s.owned_slots(user).contains(x) && #[trigger] r.doomed(user, cap).contains(y)
                    ==> #[trigger] rows::slot_le(x, y) && x != y
            &&& forall|x: Slot|
                r.owned_slots(user).contains(x) <==> (#[trigger] s.owned_slots(user).contains(x)
                    || r.doomed(user, cap).contains(x))
        }),
        forall|i: int|
            0 <= i < r.hosts.len() && (#[trigger] r.hosts[i]).user_id != user ==> r.prune(
                user,
                cap,
            ).0.hosts.contains(r.hosts[i]),
        forall|i: int|
            0 <= i < r.ports.len() && (#[trigger] r.ports[i]).user_id != user ==> r.prune(
                user,
                cap,
            ).0.ports.contains(r.ports[i]),
{
    let keep: int = if cap < 0 {
        0
    } else {
        cap as int
    };
    let s = r.prune(user, cap).0;
    let d = r.doomed(user, cap);
    let all = r.by_age(user);
    let hp = ledger::spared_host(user, d);
    let pp = ledger::spared_port(user, d);
    ledger::lemma_filtered_wf(r, hp, pp);
    ledger::lemma_by_age(r, user);
    lemma_slots_distinct(r, user);
    lemma_slots_distinct(s, user);
    lemma_row_slot(r, user);
    lemma_row_slot(s, user);
    r.owned_slots(user).lemma_multiset_has_no_duplicates();
    all.lemma_multiset_has_no_duplicates_conv();
    let n = if all.len() <= keep {
        all.len() as int
    } else {
        keep
    };
    let kept = all.take(n);
    assert forall|x: Slot| s.owned_slots(user).contains(x) <==> (r.owned_slots(user).contains(x)
        && !d.contains(x)) by {
        if s.owned_slots(user).contains(x) {
            ledger::lemma_slot_row(s, user, x);
            if x.is_port {
                let i = choose|i: int|
                    ledger::is_port(s.ports, x.key as u16, i) && s.ports[i].user_id == user
                        && ledger::port_slot(s.ports[i]) == x;
                rows::lemma_filter_source(r.ports, pp, i);
                let a = choose|a: int| 0 <= a < r.ports.len() && r.ports[a] == s.ports[i];
                assert(r.ports[a].user_id == user);
            } else {
                let i = choose|i: int|
                    ledger::is_host_id(s.hosts, x.key, i) && s.hosts[i].user_id == user
                        && ledger::host_slot(s.hosts[i]) == x;
                rows::lemma_filter_source(r.hosts, hp, i);
                let a = choose|a: int| 0 <= a < r.hosts.len() && r.hosts[a] == s.hosts[i];
                assert(r.hosts[a].user_id == user);
            }
        }
        if r.owned_slots(user).contains(x) && !d.contains(x) {
            ledger::lemma_slot_row(r, user, x);
            if x.is_port {
                let i = choose|i: int|
                    ledger::is_port(r.ports, x.key as u16, i) && r.ports[i].user_id == user
                        && ledger::port_slot(r.ports[i]) == x;
                r.ports.lemma_filter_contains(pp, i);
                let a = choose|a: int| 0 <= a < s.ports.len() && s.ports[a] == r.ports[i];
                assert(s.ports[a].user_id == user);
            } else {
                let i = choose|i: int|
                    ledger::is_host_id(r.hosts, x.key, i) && r.hosts[i].user_id == user
                        && ledger::host_slot(r.hosts[i]) == x;
                r.hosts.lemma_filter_contains(hp, i);
                let a = choose|a: int| 0 <= a < s.hosts.len() && s.hosts[a] == r.hosts[i];
                assert(s.hosts[a].user_id == user);
            }
        }
    }
    assert forall|x: Slot| kept.contains(x) <==> (all.contains(x) && !d.contains(x)) by {
        if kept.contains(x) {
            let i = choose|i: int| 0 <= i < kept.len() && kept[i] == x;
            assert(all[i] == x);
            if d.contains(x) {
                let j = choose|j: int| 0 <= j < d.len() && d[j] == x;
                assert(all[keep + j] == x);
            }
        }
        if all.contains(x) && !d.contains(x) {
            let i = choose|i: int| 0 <= i < all.len() && all[i] == x;
            if i >= n {
                assert(d[i - keep] == x);
            }
            assert(kept[i] == x);
        }
    }
    assert forall|x: Slot| d.contains(x) implies all.contains(x) by {
        let j = choose|j: int| 0 <= j < d.len() && d[j] == x;
        assert(all[keep + j] == x);
    }
    assert(s.owned_slots(user).to_set() =~= kept.to_set());
    s.owned_slots(user).unique_seq_to_set();
    kept.unique_seq_to_set();
    assert(s.owned_slots(user).len() == kept.len());
    assert forall|x: Slot, y: Slot|
        s.owned_slots(user).contains(x) && #[trigger] d.contains(y) implies #[trigger] rows::slot_le(
        x,
        y,
    ) && x != y by {
        assert(kept.contains(x));
        let i = choose|i: int| 0 <= i < kept.len() && kept[i] == x;
        let j = choose|j: int| 0 <= j < d.len() && d[j] == y;
        let le = ledger::age_order();
        assert(le(all[i], all[keep + j]));
    }
    assert forall|i: int|
        0 <= i < r.hosts.len() && (#[trigger] r.hosts[i]).user_id != user implies s.hosts.contains(
        r.hosts[i],
    ) by {
        r.hosts.lemma_filter_contains(hp, i);
    }
    assert forall|i: int|
        0 <= i < r.ports.len() && (#[trigger] r.ports[i]).user_id != user implies s.ports.contains(
        r.ports[i],
    ) by {
        r.ports.lemma_filter_contains(pp, i);
    }
}

/// Ownership fails closed: whatever rows exist, nobody owns a hostname whose
/// label is reserved or malformed.
pub proof fn ownership_fails_closed(r: RegistryView, user: i64, l: Seq<char>)
    requires
        label::label_fault(l) is Some,
    ensures
        !r.owns_host(user, l + seq!['.'] + r.domain),
{
    let fqdn = l + seq!['.'] + r.domain;
    let suffix = seq!['.'] + r.domain;
    assert(fqdn =~= l + suffix);
    assert(fqdn.take(fqdn.len() - suffix.len()) =~= l);
}

/// A label a user claimed is a hostname the user owns, and nobody else does.
pub proof fn claimed_label_is_owned(
    r: RegistryView,
    user: i64,
    l: Seq<char>,
    max: Option<i64>,
    now: i64,
)
    requires
        r.wf(),
        r.claim(user, l, max, now).1 is Ok,
    ensures
        forall|u: i64|
            #[trigger] r.claim(user, l, max, now).0.owns_host(u, l + seq!['.'] + r.domain) <==> u
                == user,
{
    let (s, a) = r.claim(user, l, max, now);
    let fqdn = l + seq!['.'] + r.domain;
    let suffix = seq!['.'] + r.domain;
    assert(fqdn =~= l + suffix);
    assert(suffix.is_suffix_of(fqdn)) by {
        assert(fqdn.subrange((fqdn.len() - suffix.len()) as int, fqdn.len() as int) =~= suffix);
    }
    assert(fqdn.take(fqdn.len() - suffix.len()) =~= l);
    assert(!l.contains('.')) by {
        if l.contains('.') {
            let i = choose|i: int| 0 <= i < l.len() && l[i] == '.';
            assert(!label::label_char(l[i]));
        }
    }
    if a->Ok_0 {
        ledger::lemma_store_host_wf(r, user, l, now);
        let n = r.hosts.len() as int;
        assert(ledger::is_host(s.hosts, l, n));
        ledger::lemma_host(s, l, n);
    }
}

} // verus!
