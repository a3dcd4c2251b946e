//! Who has what: each registry operation in terms of the rows before and after.
use vstd::prelude::*;

use crate::relay::auth::ClaimView;
use crate::relay::label;
use crate::relay::ledger;
use crate::relay::ledger::{ErrView, RegistryView, TokenRowView, WhoView};
use crate::relay::rows;
use crate::relay::rows::{
    HostRow, HostView, PortRow, PortView, Row, Slot, TokenRec, TokenView, UserRow, UserView,
};

verus! {

/// The user of this name has this id.
pub open spec fn user_is(r: RegistryView, name: Seq<char>, id: i64) -> bool {
    exists|i: int| 0 <= i < r.users.len() && (#[trigger] r.users[i]).name == name && r.users[i].id
        == id
}

/// Somebody has this name.
pub open spec fn name_known(r: RegistryView, name: Seq<char>) -> bool {
    exists|i: int| 0 <= i < r.users.len() && (#[trigger] r.users[i]).name == name
}

/// This user has this label.
pub open spec fn label_is(r: RegistryView, l: Seq<char>, user: i64) -> bool {
    exists|i: int|
        0 <= i < r.hosts.len() && (#[trigger] r.hosts[i]).label == l && r.hosts[i].user_id == user
}

/// Somebody has this label.
pub open spec fn label_had(r: RegistryView, l: Seq<char>) -> bool {
    exists|i: int| 0 <= i < r.hosts.len() && (#[trigger] r.hosts[i]).label == l
}

/// This user has this port.
pub open spec fn port_is(r: RegistryView, p: u16, user: i64) -> bool {
    exists|i: int|
        0 <= i < r.ports.len() && (#[trigger] r.ports[i]).port == p && r.ports[i].user_id == user
}

/// Somebody has this port.
pub open spec fn port_had(r: RegistryView, p: u16) -> bool {
    exists|i: int| 0 <= i < r.ports.len() && (#[trigger] r.ports[i]).port == p
}

/// A name belongs to the user it is looked up as.
pub proof fn lookup_finds_the_user(r: RegistryView, name: Seq<char>)
    requires
        r.wf(),
    ensures
        match r.lookup(name) {
            Some(id) => user_is(r, name, id),
            None => !name_known(r, name),
        },
        forall|id: i64| #[trigger] user_is(r, name, id) ==> r.lookup(name) == Some(id),
{
    if name_known(r, name) {
        let i = choose|i: int| 0 <= i < r.users.len() && (#[trigger] r.users[i]).name == name;
        assert(ledger::is_user(r.users, name, i));
        ledger::lemma_user(r, name, i);
    } else if r.has_user(name) {
        let i = choose|i: int| ledger::is_user(r.users, name, i);
        assert(r.users[i].name == name);
    }
    assert forall|id: i64| #[trigger] user_is(r, name, id) implies r.lookup(name) == Some(id) by {
        let i = choose|i: int|
            0 <= i < r.users.len() && (#[trigger] r.users[i]).name == name && r.users[i].id == id;
        assert(ledger::is_user(r.users, name, i));
        ledger::lemma_user(r, name, i);
    }
}

/// A new user is found under the name, with an id that nobody had; everything
/// else stays. A name that is taken changes nothing.
pub proof fn new_user_is_found(r: RegistryView, name: Seq<char>, now: i64)
    requires
        r.wf(),
    ensures
        ({
            let (s, a) = r.add_user(name, now);
            &&& s.tokens == r.tokens && s.hosts == r.hosts && s.ports == r.ports && s.domain
                == r.domain
            &&& name_known(r, name) ==> s == r && a == Err::<i64, ErrView>(
                ErrView::UserExists(name),
            )
            &&& a matches Ok(id) ==> !name_known(r, name) && s.users == r.users.push(
                UserView { id, name, created_at: now },
            ) && s.lookup(name) == Some(id) && forall|i: int|
                0 <= i < r.users.len() ==> (#[trigger] r.users[i]).id != id
            &&& !name_known(r, name) && (r.users.len() > 0 ==> r.users.last().id < i64::MAX) ==> a
                is Ok
        }),
{
    let (s, a) = r.add_user(name, now);
    ledger::lemma_add_user_wf(r, name, now);
    assert(name_known(r, name) == r.has_user(name)) by {
        if name_known(r, name) {
            let i = choose|i: int| 0 <= i < r.users.len() && (#[trigger] r.users[i]).name == name;
            assert(ledger::is_user(r.users, name, i));
        }
        if r.has_user(name) {
            let i = choose|i: int| ledger::is_user(r.users, name, i);
            assert(r.users[i].name == name);
        }
    }
    if let Ok(id) = a {
        let n = r.users.len() as int;
        assert(ledger::is_user(s.users, name, n));
        ledger::lemma_user(s, name, n);
        assert forall|i: int| 0 <= i < r.users.len() implies (#[trigger] r.users[i]).id != id by {
            assert(UserRow::apart(s.users[i], s.users[n]));
            assert(s.users[i] == r.users[i]);
        }
    }
}

/// Making sure of a user finds the one of that name, or adds one; the answer
/// tells which.
pub proof fn ensured_user_is_there(r: RegistryView, name: Seq<char>, now: i64)
    requires
        r.wf(),
    ensures
        ({
            let (s, a) = r.ensure_user(name, now);
            &&& a matches Ok((id, created)) ==> s.lookup(name) == Some(id) && created
                == !name_known(r, name) && (!created ==> s == r)
            &&& name_known(r, name) ==> a is Ok
            &&& s.tokens == r.tokens && s.hosts == r.hosts && s.ports == r.ports
        }),
{
    lookup_finds_the_user(r, name);
    new_user_is_found(r, name, now);
    if name_known(r, name) {
        let i = choose|i: int| 0 <= i < r.users.len() && (#[trigger] r.users[i]).name == name;
        assert(user_is(r, name, r.users[i].id));
    }
}

/// A token is created for a known user only. It is handed back as it is, stored
/// as a digest with its label, and authenticates as that user.
pub proof fn created_token_is_the_users(
    r: RegistryView,
    user: Seq<char>,
    label: Option<Seq<char>>,
    token: Seq<char>,
    now: i64,
)
    requires
        r.wf(),
    ensures
        ({
            let (s, a) = r.create_token(user, label, token, now);
            &&& !name_known(r, user) ==> s == r && a == Err::<Seq<char>, ErrView>(
                ErrView::NoSuchUser(user),
            )
            &&& a matches Ok(t) ==> t == token && (s.authenticate(token) matches Some(who)
                && who.name == user && user_is(r, user, who.user_id)) && s.tokens.len()
                == r.tokens.len() + 1 && s.tokens.last().label == label
                && s.tokens.last().created_at == now && s.users == r.users && s.hosts == r.hosts
                && s.ports == r.ports
            &&& a is Err ==> s == r
        }),
{
    lookup_finds_the_user(r, user);
    let (s, a) = r.create_token(user, label, token, now);
    if a is Ok {
        let id = r.lookup(user)->0;
        let i = choose|i: int|
            0 <= i < r.users.len() && (#[trigger] r.users[i]).name == user && r.users[i].id == id;
        assert(ledger::is_user_id(r.users, id, i));
        ledger::lemma_user_id(r, id, i);
        crate::relay::ownership::stored_token_authenticates(r, id, token, label, now);
    }
}

/// Rotating answers with how many tokens of the user it revoked, and the fresh
/// one as it is.
pub proof fn rotation_counts_what_it_revokes(
    r: RegistryView,
    name: Seq<char>,
    token: Seq<char>,
    now: i64,
)
    requires
        r.wf(),
    ensures
        ({
            let (s, a) = r.rotate(name, token, now);
            let id = r.ensure_user(name, now).1->Ok_0.0;
            a matches Ok((t, n)) ==> t == token && n == r.tokens.filter(
                |x: TokenView| x.user_id == id && x.revoked_at is None,
            ).len() as usize && s.tokens.len() == r.tokens.len() + 1 && forall|i: int|
                0 <= i < r.tokens.len() ==> ((#[trigger] s.tokens[i]).revoked_at is Some <==> (
                r.tokens[i].revoked_at is Some || r.tokens[i].user_id == id)) && s.tokens[i].id
                    == r.tokens[i].id && s.tokens[i].user_id == r.tokens[i].user_id
                    && s.tokens[i].hash == r.tokens[i].hash
        }),
{
    ensured_user_is_there(r, name, now);
    let id = r.ensure_user(name, now).1->Ok_0.0;
    assert(ledger::valid_of(id) =~= |x: TokenView| x.user_id == id && x.revoked_at is None);
}

/// A token authenticates exactly if a row with its digest is stored and was not
/// revoked; it authenticates as the user of that row, by the user's name.
pub proof fn token_stands_for_its_user(r: RegistryView, token: Seq<char>, i: int, j: int)
    requires
        r.wf(),
        0 <= i < r.tokens.len(),
        r.tokens[i].hash == ledger::token_digest(token),
        0 <= j < r.users.len(),
        r.users[j].id == r.tokens[i].user_id,
    ensures
        r.authenticate(token) == (if r.tokens[i].revoked_at is None {
            Some(WhoView { user_id: r.users[j].id, name: r.users[j].name })
        } else {
            None
        }),
{
    let h = ledger::token_digest(token);
    assert(ledger::is_user_id(r.users, r.users[j].id, j));
    ledger::lemma_user_id(r, r.users[j].id, j);
    if r.tokens[i].revoked_at is None {
        assert(ledger::is_valid_token(r.tokens, h, i));
        ledger::lemma_token(r, token, i);
    } else {
        assert forall|k: int| !ledger::is_valid_token(r.tokens, h, k) by {
            if ledger::is_valid_token(r.tokens, h, k) {
                if k < i {
                    assert(TokenRec::apart(r.tokens[k], r.tokens[i]));
                } else if i < k {
                    assert(TokenRec::apart(r.tokens[i], r.tokens[k]));
                }
            }
        }
    }
}

/// A digest that is not stored authenticates nobody.
pub proof fn unknown_token_is_nobodys(r: RegistryView, token: Seq<char>)
    requires
        forall|i: int|
            0 <= i < r.tokens.len() ==> (#[trigger] r.tokens[i]).hash != ledger::token_digest(token),
    ensures
        r.authenticate(token) is None,
{
}

/// Having a label and being its owner of record are the same.
pub proof fn label_row_decides(r: RegistryView, l: Seq<char>, user: i64)
    requires
        r.wf(),
    ensures
        r.has_label(l) == label_had(r, l),
        r.has_label(l) ==> (r.host(l).user_id == user) == label_is(r, l, user),
{
    if r.has_label(l) {
        let i = choose|i: int| ledger::is_host(r.hosts, l, i);
        assert(r.hosts[i].label == l);
        ledger::lemma_host(r, l, i);
    }
    if label_had(r, l) {
        let i = choose|i: int| 0 <= i < r.hosts.len() && (#[trigger] r.hosts[i]).label == l;
        assert(ledger::is_host(r.hosts, l, i));
    }
    if label_is(r, l, user) {
        let i = choose|i: int|
            0 <= i < r.hosts.len() && (#[trigger] r.hosts[i]).label == l && r.hosts[i].user_id
                == user;
        assert(ledger::is_host(r.hosts, l, i));
        ledger::lemma_host(r, l, i);
    }
}

/// Having a port and being its owner of record are the same.
pub proof fn port_row_decides(r: RegistryView, p: u16, user: i64)
    requires
        r.wf(),
    ensures
        r.has_port(p) == port_had(r, p),
        r.owns_port(user, p) == port_is(r, p, user),
{
    if r.has_port(p) {
        let i = choose|i: int| ledger::is_port(r.ports, p, i);
        assert(r.ports[i].port == p);
        ledger::lemma_port(r, p, i);
    }
    if port_had(r, p) {
        let i = choose|i: int| 0 <= i < r.ports.len() && (#[trigger] r.ports[i]).port == p;
        assert(ledger::is_port(r.ports, p, i));
    }
    if port_is(r, p, user) {
        let i = choose|i: int|
            0 <= i < r.ports.len() && (#[trigger] r.ports[i]).port == p && r.ports[i].user_id
                == user;
        assert(ledger::is_port(r.ports, p, i));
        ledger::lemma_port(r, p, i);
    }
}

/// What becomes of a claim: a bad label is refused; one's own is a no-op and
/// another's is taken; a free one is refused at the cap, and otherwise becomes
/// the claimant's. Only the last changes anything, and only by that one row.
pub proof fn free_label_goes_to_the_claimant(
    r: RegistryView,
    user: i64,
    l: Seq<char>,
    max: Option<i64>,
    now: i64,
)
    requires
        r.wf(),
    ensures
        ({
            let (s, a) = r.claim(user, l, max, now);
            let bad = label::label_fault(l) is Some;
            let full = max is Some && r.owned_count(user) >= max->0;
            let stored = exists|i: int| 0 <= i < r.users.len() && (#[trigger] r.users[i]).id == user;
            &&& bad ==> a == Err::<bool, ErrView>(
                ErrView::InvalidLabel(l, label::label_fault(l)->0),
            )
            &&& !bad && label_is(r, l, user) ==> a == Ok::<bool, ErrView>(false)
            &&& !bad && label_had(r, l) && !label_is(r, l, user) ==> a == Err::<bool, ErrView>(
                ErrView::LabelTaken(l),
            )
            &&& !bad && !label_had(r, l) && full ==> a == Err::<bool, ErrView>(ErrView::CapExceeded)
            &&& a == Ok::<bool, ErrView>(true) <==> !bad && !label_had(r, l) && !full && stored && (
            r.hosts.len() > 0 ==> r.hosts.last().id < i64::MAX)
            &&& a != Ok::<bool, ErrView>(true) ==> s == r
            &&& a == Ok::<bool, ErrView>(true) ==> s.hosts.drop_last() == r.hosts
                && s.hosts.last().label == l && s.hosts.last().user_id == user
                && s.hosts.last().created_at == now && s.users == r.users && s.tokens == r.tokens
                && s.ports == r.ports && s.domain == r.domain
        }),
{
    label_row_decides(r, l, user);
    let (s, a) = r.claim(user, l, max, now);
    assert(r.has_user_id(user) == exists|i: int|
        0 <= i < r.users.len() && (#[trigger] r.users[i]).id == user) by {
        if r.has_user_id(user) {
            let i = choose|i: int| ledger::is_user_id(r.users, user, i);
            assert(r.users[i].id == user);
        }
        if exists|i: int| 0 <= i < r.users.len() && (#[trigger] r.users[i]).id == user {
            let i = choose|i: int| 0 <= i < r.users.len() && (#[trigger] r.users[i]).id == user;
            assert(ledger::is_user_id(r.users, user, i));
        }
    }
    if a == Ok::<bool, ErrView>(true) {
        assert(s.hosts.drop_last() =~= r.hosts);
    }
}

/// A granted label is the named user's; a bad label, an unknown user and a
/// taken label are refused, each as such, and change nothing.
pub proof fn granted_label_is_the_users(r: RegistryView, l: Seq<char>, user: Seq<char>, now: i64)
    requires
        r.wf(),
    ensures
        ({
            let (s, a) = r.add_hostname(l, user, now);
            let bad = label::label_fault(l) is Some;
            &&& bad ==> a == Err::<(), ErrView>(
                ErrView::InvalidLabel(l, label::label_fault(l)->0),
            )
            &&& !bad && !name_known(r, user) ==> a == Err::<(), ErrView>(ErrView::NoSuchUser(user))
            &&& !bad && name_known(r, user) && label_had(r, l) ==> a == Err::<(), ErrView>(
                ErrView::LabelTaken(l),
            )
            &&& a is Err ==> s == r
            &&& a is Ok ==> s.hosts.drop_last() == r.hosts && s.hosts.last().label == l && user_is(
                r,
                user,
                s.hosts.last().user_id,
            ) && s.users == r.users && s.tokens == r.tokens && s.ports == r.ports
        }),
{
    lookup_finds_the_user(r, user);
    label_row_decides(r, l, 0);
    let (s, a) = r.add_hostname(l, user, now);
    if a is Ok {
        assert(s.hosts.drop_last() =~= r.hosts);
    }
}

/// A removed label is nobody's; every other row stays.
pub proof fn removed_label_is_nobodys(r: RegistryView, l: Seq<char>, h: HostView)
    requires
        r.wf(),
    ensures
        ({
            let (s, done) = r.remove_hostname(l);
            &&& done == label_had(r, l)
            &&& s.hosts.contains(h) <==> r.hosts.contains(h) && h.label != l
            &&& !label_had(s, l)
            &&& s.users == r.users && s.tokens == r.tokens && s.ports == r.ports && s.domain
                == r.domain
        }),
{
    let p = |h: HostView| h.label != l;
    label_row_decides(r, l, 0);
    lemma_kept(r.hosts, p, h);
    if label_had(r.remove_hostname(l).0, l) {
        let s = r.remove_hostname(l).0;
        let i = choose|i: int| 0 <= i < s.hosts.len() && (#[trigger] s.hosts[i]).label == l;
        rows::lemma_filter_source(r.hosts, p, i);
    }
}

proof fn lemma_kept<A>(s: Seq<A>, p: spec_fn(A) -> bool, x: A)
    ensures
        s.filter(p).contains(x) <==> s.contains(x) && p(x),
{
    if s.filter(p).contains(x) {
        let i = choose|i: int| 0 <= i < s.filter(p).len() && s.filter(p)[i] == x;
        rows::lemma_filter_source(s, p, i);
    }
    if s.contains(x) && p(x) {
        let i = choose|i: int| 0 <= i < s.len() && s[i] == x;
        s.lemma_filter_contains(p, i);
    }
}

/// A reserved port is the named user's, and counts as one more resource; all
/// other ports stay with whoever has them. An unknown user and a port that is
/// taken are refused, each as such, and change nothing.
pub proof fn reserved_port_is_the_users(
    r: RegistryView,
    p: u16,
    user: Seq<char>,
    now: i64,
    x: PortView,
)
    requires
        r.wf(),
    ensures
        ({
            let (s, a) = r.add_port(p, user, now);
            &&& !name_known(r, user) ==> a == Err::<(), ErrView>(ErrView::NoSuchUser(user))
            &&& name_known(r, user) && port_had(r, p) ==> a == Err::<(), ErrView>(
                ErrView::PortTaken(p),
            )
            &&& a is Ok <==> name_known(r, user) && !port_had(r, p)
            &&& a is Err ==> s == r
            &&& a is Ok ==> {
                let id = r.lookup(user)->0;
                &&& user_is(r, user, id)
                &&& s.ports.contains(x) <==> r.ports.contains(x) || x == (PortView {
                    port: p,
                    user_id: id,
                    created_at: now,
                })
                &&& port_is(s, p, id)
                &&& s.owned_count(id) == r.owned_count(id) + 1
                &&& s.users == r.users && s.tokens == r.tokens && s.hosts == r.hosts && s.domain
                    == r.domain
            }
        }),
{
    lookup_finds_the_user(r, user);
    port_row_decides(r, p, 0);
    let (s, a) = r.add_port(p, user, now);
    if a is Ok {
        let id = r.lookup(user)->0;
        let row = PortView { port: p, user_id: id, created_at: now };
        let low = r.ports.filter(ledger::below(p));
        let high = r.ports.filter(ledger::above(p));
        lemma_kept(r.ports, ledger::below(p), x);
        lemma_kept(r.ports, ledger::above(p), x);
        if s.ports.contains(x) {
            let k = choose|k: int| 0 <= k < s.ports.len() && s.ports[k] == x;
            if k < low.len() {
                assert(low[k] == x);
            } else if k > low.len() {
                assert(high[k - low.len() - 1] == x);
            }
        }
        if r.ports.contains(x) {
            let i = choose|i: int| 0 <= i < r.ports.len() && r.ports[i] == x;
            assert(r.ports[i].port != p);
            if x.port < p {
                let k = choose|k: int| 0 <= k < low.len() && low[k] == x;
                assert(s.ports[k] == x);
            } else {
                let k = choose|k: int| 0 <= k < high.len() && high[k] == x;
                assert(s.ports[low.len() + 1 + k] == x);
            }
        }
        assert(s.ports[low.len() as int] == row);
        let q = rows::owned_by::<PortRow>(id);
        Seq::filter_distributes_over_add(low + seq![row], high, q);
        Seq::filter_distributes_over_add(low, seq![row], q);
        assert(seq![row].filter(q).len() == 1) by {
            reveal(Seq::filter);
            assert(seq![row].drop_last() =~= Seq::<PortView>::empty());
            assert(Seq::<PortView>::empty().filter(q).len() == 0);
            assert(seq![row].last() == row);
        }
        assert(r.ports.filter(q).len() == low.filter(q).len() + high.filter(q).len()) by {
            assert forall|i: int| 0 <= i < r.ports.len() implies (#[trigger] r.ports[i]).port != p by {
            }
            lemma_split_count(r.ports, p, q);
        }
    }
}

proof fn lemma_split_count(s: Seq<PortView>, p: u16, q: spec_fn(PortView) -> bool)
    requires
        forall|i: int| 0 <= i < s.len() ==> (#[trigger] s[i]).port != p,
    ensures
        s.filter(q).len() == s.filter(ledger::below(p)).filter(q).len() + s.filter(
            ledger::above(p),
        ).filter(q).len(),
    decreases s.len(),
{
    reveal(Seq::filter);
    if s.len() > 0 {
        let t = s.drop_last();
        assert forall|i: int| 0 <= i < t.len() implies (#[trigger] t[i]).port != p by {
            assert(s[i].port != p);
        }
        lemma_split_count(t, p, q);
        let x = s.last();
        assert(s[s.len() - 1].port != p);
        let low = t.filter(ledger::below(p));
        let high = t.filter(ledger::above(p));
        assert(low.push(x).drop_last() =~= low);
        assert(high.push(x).drop_last() =~= high);
    }
}

/// A removed port is nobody's; every other row stays.
pub proof fn removed_port_is_nobodys(r: RegistryView, p: u16, x: PortView)
    requires
        r.wf(),
    ensures
        ({
            let (s, done) = r.remove_port(p);
            &&& done == port_had(r, p)
            &&& s.ports.contains(x) <==> r.ports.contains(x) && x.port != p
            &&& !port_had(s, p)
            &&& s.users == r.users && s.tokens == r.tokens && s.hosts == r.hosts && s.domain
                == r.domain
        }),
{
    let q = |x: PortView| x.port != p;
    port_row_decides(r, p, 0);
    lemma_kept(r.ports, q, x);
    if port_had(r.remove_port(p).0, p) {
        let s = r.remove_port(p).0;
        let i = choose|i: int| 0 <= i < s.ports.len() && (#[trigger] s.ports[i]).port == p;
        rows::lemma_filter_source(r.ports, q, i);
    }
}

/// A hostname of this relay is one good label in front of the domain, and
/// nothing else is one.
pub proof fn hostname_is_a_label_below_the_domain(r: RegistryView, l: Seq<char>, fqdn: Seq<char>)
    ensures
        r.label_of(fqdn) matches Some(x) ==> fqdn == x + seq!['.'] + r.domain && !x.contains('.')
            && label::label_fault(x) is None,
        label::label_fault(l) is None && !l.contains('.') ==> r.label_of(l + seq!['.'] + r.domain)
            == Some(l),
        label::label_fault(l) is Some || l.contains('.') ==> r.label_of(l + seq!['.'] + r.domain)
            is None,
{
    let suffix = seq!['.'] + r.domain;
    if let Some(x) = r.label_of(fqdn) {
        assert(fqdn =~= x + suffix);
        assert(fqdn =~= x + seq!['.'] + r.domain);
    }
    let whole = l + seq!['.'] + r.domain;
    assert(whole =~= l + suffix);
    assert(whole.subrange(whole.len() - suffix.len(), whole.len() as int) =~= suffix);
    assert(whole.take(whole.len() - suffix.len()) =~= l);
}

/// A user has a hostname exactly if the hostname is one of this relay's and its
/// label is the user's.
pub proof fn hostname_is_had_by_its_label(r: RegistryView, user: i64, fqdn: Seq<char>)
    requires
        r.wf(),
    ensures
        r.owns_host(user, fqdn) <==> (r.label_of(fqdn) matches Some(l) && label_is(r, l, user)),
{
    if let Some(l) = r.label_of(fqdn) {
        label_row_decides(r, l, user);
        if label_is(r, l, user) {
            let i = choose|i: int|
                0 <= i < r.hosts.len() && (#[trigger] r.hosts[i]).label == l && r.hosts[i].user_id
                    == user;
            assert(label_had(r, l));
        }
    }
}

/// How claiming a hostname ends is told apart: it is the claimant's afterwards,
/// or another's, or beyond the cap, or no hostname that can be had.
pub proof fn claimed_hostname_is_had(
    r: RegistryView,
    user: i64,
    fqdn: Seq<char>,
    max: Option<i64>,
    now: i64,
)
    requires
        r.wf(),
    ensures
        ({
            let (s, out) = r.claim_host(user, fqdn, max, now);
            &&& out == ClaimView::Owned ==> s.owns_host(user, fqdn)
            &&& r.owns_host(user, fqdn) ==> out == ClaimView::Owned && s == r
            &&& out != ClaimView::Owned ==> s == r
            &&& r.label_of(fqdn) is None <==> out is Invalid
            &&& r.label_of(fqdn) matches Some(l) ==> {
                &&& label_had(r, l) && !label_is(r, l, user) ==> out == ClaimView::Taken
                &&& out == ClaimView::CapExceeded ==> !label_had(r, l) && max is Some
                    && r.owned_count(user) >= max->0
                &&& !label_had(r, l) && max is Some && r.owned_count(user) >= max->0 ==> out
                    == ClaimView::CapExceeded
            }
        }),
{
    hostname_is_had_by_its_label(r, user, fqdn);
    if let Some(l) = r.label_of(fqdn) {
        free_label_goes_to_the_claimant(r, user, l, max, now);
        hostname_is_a_label_below_the_domain(r, l, fqdn);
        let (s, out) = r.claim_host(user, fqdn, max, now);
        if r.claim(user, l, max, now).1 == Ok::<bool, ErrView>(true) {
            crate::relay::ownership::claimed_label_is_owned(r, user, l, max, now);
        }
    }
}

/// A hostname is given up exactly by whoever has it; it is then nobody's, and
/// nothing else changes hands.
pub proof fn given_up_hostname_is_free(r: RegistryView, user: i64, fqdn: Seq<char>, h: HostView)
    requires
        r.wf(),
    ensures
        ({
            let (s, had) = r.release_host(user, fqdn);
            &&& had == r.owns_host(user, fqdn)
            &&& !had ==> s == r
            &&& had ==> !label_had(s, r.label_of(fqdn)->0) && (s.hosts.contains(h) <==>
                r.hosts.contains(h) && h.label != r.label_of(fqdn)->0) && s.users == r.users
                && s.tokens == r.tokens && s.ports == r.ports
        }),
{
    if r.owns_host(user, fqdn) {
        removed_label_is_nobodys(r, r.label_of(fqdn)->0, h);
    }
}

/// A port is given up exactly by whoever has it; it is then nobody's, and
/// nothing else changes hands.
pub proof fn given_up_port_is_free(r: RegistryView, user: i64, p: u16, x: PortView)
    requires
        r.wf(),
    ensures
        ({
            let (s, had) = r.release_one_port(user, p);
            &&& had == port_is(r, p, user)
            &&& !had ==> s == r
            &&& had ==> !port_had(s, p) && (s.ports.contains(x) <==> r.ports.contains(x) && x.port
                != p) && s.users == r.users && s.tokens == r.tokens && s.hosts == r.hosts
        }),
{
    port_row_decides(r, p, user);
    removed_port_is_nobodys(r, p, x);
}

/// What a user has is listed in full: each label as a hostname of this relay,
/// and each port.
pub proof fn owned_set_is_complete(r: RegistryView, user: i64, host: Seq<char>, p: u16)
    ensures
        r.fqdns_of(user).contains(host) <==> exists|i: int|
            0 <= i < r.hosts.len() && (#[trigger] r.hosts[i]).user_id == user && host
                == r.hosts[i].label + seq!['.'] + r.domain,
        ledger::port_numbers(rows::of_user::<PortRow>(r.ports, user)).contains(p) <==> port_is(
            r,
            p,
            user,
        ),
        r.fqdns_of(user).len() + rows::of_user::<PortRow>(r.ports, user).len() == r.owned_count(
            user,
        ),
{
    let mine = rows::of_user::<HostRow>(r.hosts, user);
    let f = |l: Seq<char>| l + seq!['.'] + r.domain;
    let names = ledger::labels(mine);
    let all = r.fqdns_of(user);
    if all.contains(host) {
        let k = choose|k: int| 0 <= k < all.len() && all[k] == host;
        assert(all[k] == f(names[k]));
        rows::lemma_filter_source(r.hosts, rows::owned_by::<HostRow>(user), k);
        let i = choose|i: int| 0 <= i < r.hosts.len() && r.hosts[i] == mine[k];
        assert(r.hosts[i].user_id == user);
    }
    if exists|i: int|
        0 <= i < r.hosts.len() && (#[trigger] r.hosts[i]).user_id == user && host == r.hosts[i].label
            + seq!['.'] + r.domain {
        let i = choose|i: int|
            0 <= i < r.hosts.len() && (#[trigger] r.hosts[i]).user_id == user && host
                == r.hosts[i].label + seq!['.'] + r.domain;
        r.hosts.lemma_filter_contains(rows::owned_by::<HostRow>(user), i);
        let k = choose|k: int| 0 <= k < mine.len() && mine[k] == r.hosts[i];
        assert(all[k] == f(names[k]));
    }
    let held = rows::of_user::<PortRow>(r.ports, user);
    let numbers = ledger::port_numbers(held);
    if numbers.contains(p) {
        let k = choose|k: int| 0 <= k < numbers.len() && numbers[k] == p;
        rows::lemma_filter_source(r.ports, rows::owned_by::<PortRow>(user), k);
        let i = choose|i: int| 0 <= i < r.ports.len() && r.ports[i] == held[k];
        assert(r.ports[i].port == p);
    }
    if port_is(r, p, user) {
        let i = choose|i: int|
            0 <= i < r.ports.len() && (#[trigger] r.ports[i]).port == p && r.ports[i].user_id
                == user;
        r.ports.lemma_filter_contains(rows::owned_by::<PortRow>(user), i);
        let k = choose|k: int| 0 <= k < held.len() && held[k] == r.ports[i];
        assert(numbers[k] == p);
    }
}

/// A removed user leaves no row behind, and takes none of anybody else's. One
/// who still has something is removed by force only.
pub proof fn removed_user_leaves_nothing(
    r: RegistryView,
    name: Seq<char>,
    force: bool,
    u: UserView,
    t: TokenView,
    h: HostView,
    p: PortView,
)
    requires
        r.wf(),
    ensures
        ({
            let (s, a) = r.remove_user(name, force);
            let id = r.lookup(name)->0;
            let empty = (forall|i: int|
                0 <= i < r.tokens.len() ==> (#[trigger] r.tokens[i]).user_id != id) && (forall|
                i: int,
            |
                0 <= i < r.hosts.len() ==> (#[trigger] r.hosts[i]).user_id != id) && (forall|i: int|
                0 <= i < r.ports.len() ==> (#[trigger] r.ports[i]).user_id != id);
            &&& !name_known(r, name) ==> a == Err::<(), ErrView>(ErrView::NoSuchUser(name))
            &&& name_known(r, name) && !force && !empty ==> a == Err::<(), ErrView>(
                ErrView::UserNotEmpty(name),
            )
            &&& a is Ok <==> name_known(r, name) && (force || empty)
            &&& a is Err ==> s == r
            &&& a is Ok ==> {
                &&& s.users.contains(u) <==> r.users.contains(u) && u.id != id
                &&& s.tokens.contains(t) <==> r.tokens.contains(t) && t.user_id != id
                &&& s.hosts.contains(h) <==> r.hosts.contains(h) && h.user_id != id
                &&& s.ports.contains(p) <==> r.ports.contains(p) && p.user_id != id
                &&& s.domain == r.domain
            }
        }),
{
    lookup_finds_the_user(r, name);
    let id = r.lookup(name)->0;
    lemma_kept(r.users, rows::not_owned_by::<UserRow>(id), u);
    lemma_kept(r.tokens, rows::not_owned_by::<TokenRec>(id), t);
    lemma_kept(r.hosts, rows::not_owned_by::<HostRow>(id), h);
    lemma_kept(r.ports, rows::not_owned_by::<PortRow>(id), p);
    lemma_has_none::<TokenRec>(r.tokens, id);
    lemma_has_none::<HostRow>(r.hosts, id);
    lemma_has_none::<PortRow>(r.ports, id);
    assert((forall|i: int| 0 <= i < r.tokens.len() ==> (#[trigger] r.tokens[i]).user_id != id) == (
    forall|i: int| 0 <= i < r.tokens.len() ==> TokenRec::owner(#[trigger] r.tokens[i]) != id));
    assert((forall|i: int| 0 <= i < r.hosts.len() ==> (#[trigger] r.hosts[i]).user_id != id) == (
    forall|i: int| 0 <= i < r.hosts.len() ==> HostRow::owner(#[trigger] r.hosts[i]) != id));
    assert((forall|i: int| 0 <= i < r.ports.len() ==> (#[trigger] r.ports[i]).user_id != id) == (
    forall|i: int| 0 <= i < r.ports.len() ==> PortRow::owner(#[trigger] r.ports[i]) != id));
}

proof fn lemma_has_none<T: Row>(s: Seq<T::V>, user: i64)
    ensures
        rows::of_user::<T>(s, user).len() == 0 <==> forall|i: int|
            0 <= i < s.len() ==> T::owner(#[trigger] s[i]) != user,
{
    let p = rows::owned_by::<T>(user);
    if rows::of_user::<T>(s, user).len() > 0 {
        rows::lemma_filter_source(s, p, 0);
        let i = choose|i: int| 0 <= i < s.len() && s[i] == s.filter(p)[0];
        assert(T::owner(s[i]) == user);
    } else {
        assert forall|i: int| 0 <= i < s.len() implies T::owner(#[trigger] s[i]) != user by {
            if T::owner(s[i]) == user {
                s.lemma_filter_contains(p, i);
            }
        }
    }
}

/// Releasing an account answers with exactly its labels, and with its ports if
/// they go too; whatever is anybody else's stays.
pub proof fn release_answers_with_what_went(
    r: RegistryView,
    name: Seq<char>,
    ports: bool,
    l: Seq<char>,
    p: u16,
    h: HostView,
    x: PortView,
)
    requires
        r.wf(),
    ensures
        ({
            let (s, a) = r.release(name, ports);
            let id = r.lookup(name)->0;
            &&& !name_known(r, name) ==> s == r && a is Err && a->Err_0 == ErrView::NoSuchUser(name)
            &&& a is Ok <==> name_known(r, name)
            &&& a matches Ok((names, numbers)) ==> {
                &&& names.contains(l) <==> label_is(r, l, id)
                &&& numbers.contains(p) <==> ports && port_is(r, p, id)
                &&& s.hosts.contains(h) <==> r.hosts.contains(h) && h.user_id != id
                &&& s.ports.contains(x) <==> r.ports.contains(x) && (!ports || x.user_id != id)
            }
        }),
{
    lookup_finds_the_user(r, name);
    let id = r.lookup(name)->0;
    lemma_kept(r.hosts, rows::not_owned_by::<HostRow>(id), h);
    lemma_kept(r.ports, rows::not_owned_by::<PortRow>(id), x);
    owned_set_is_complete(r, id, l, p);
    let mine = rows::of_user::<HostRow>(r.hosts, id);
    let names = ledger::labels(mine);
    if names.contains(l) {
        let k = choose|k: int| 0 <= k < names.len() && names[k] == l;
        rows::lemma_filter_source(r.hosts, rows::owned_by::<HostRow>(id), k);
        let i = choose|i: int| 0 <= i < r.hosts.len() && r.hosts[i] == mine[k];
        assert(r.hosts[i].label == l);
    }
    if label_is(r, l, id) {
        let i = choose|i: int|
            0 <= i < r.hosts.len() && (#[trigger] r.hosts[i]).label == l && r.hosts[i].user_id == id;
        r.hosts.lemma_filter_contains(rows::owned_by::<HostRow>(id), i);
        let k = choose|k: int| 0 <= k < mine.len() && mine[k] == r.hosts[i];
        assert(names[k] == l);
    }
}

/// Pruning answers with exactly the labels and ports that the user had before
/// and has no more.
pub proof fn pruning_answers_with_what_went(r: RegistryView, user: i64, cap: i64, l: Seq<char>, p: u16)
    requires
        r.wf(),
    ensures
        ({
            let (s, gone) = r.prune(user, cap);
            &&& gone.0.contains(l) <==> label_is(r, l, user) && !label_is(s, l, user)
            &&& gone.1.contains(p) <==> port_is(r, p, user) && !port_is(s, p, user)
            &&& s.users == r.users && s.tokens == r.tokens && s.domain == r.domain
        }),
{
    let (s, gone) = r.prune(user, cap);
    let d = r.doomed(user, cap);
    lemma_doomed_are_owned(r, user, cap);
    let hd = d.filter(ledger::for_hosts());
    let pd = d.filter(ledger::for_ports());
    if gone.0.contains(l) {
        let k = choose|k: int| 0 <= k < gone.0.len() && gone.0[k] == l;
        lemma_kept(d, ledger::for_hosts(), hd[k]);
        assert(hd.contains(hd[k]));
        ledger::lemma_slot_row(r, user, hd[k]);
        let i = choose|i: int|
            ledger::is_host_id(r.hosts, hd[k].key, i) && r.hosts[i].user_id == user
                && ledger::host_slot(r.hosts[i]) == hd[k];
        ledger::lemma_host_id(r, hd[k].key, i);
        assert(r.hosts[i].label == l);
        if label_is(s, l, user) {
            let j = choose|j: int|
                0 <= j < s.hosts.len() && (#[trigger] s.hosts[j]).label == l && s.hosts[j].user_id
                    == user;
            rows::lemma_filter_source(r.hosts, ledger::spared_host(user, d), j);
            let a = choose|a: int| 0 <= a < r.hosts.len() && r.hosts[a] == s.hosts[j];
            lemma_one_label(r, l, a, i);
        }
    }
    if label_is(r, l, user) && !label_is(s, l, user) {
        let i = choose|i: int|
            0 <= i < r.hosts.len() && (#[trigger] r.hosts[i]).label == l && r.hosts[i].user_id
                == user;
        let slot = ledger::host_slot(r.hosts[i]);
        if !d.contains(slot) {
            r.hosts.lemma_filter_contains(ledger::spared_host(user, d), i);
            let j = choose|j: int| 0 <= j < s.hosts.len() && s.hosts[j] == r.hosts[i];
            assert(s.hosts[j].label == l);
        }
        lemma_kept(d, ledger::for_hosts(), slot);
        let k = choose|k: int| 0 <= k < hd.len() && hd[k] == slot;
        assert(ledger::is_host_id(r.hosts, slot.key, i));
        ledger::lemma_host_id(r, slot.key, i);
        assert(gone.0[k] == l);
    }
    if gone.1.contains(p) {
        let k = choose|k: int| 0 <= k < gone.1.len() && gone.1[k] == p;
        lemma_kept(d, ledger::for_ports(), pd[k]);
        assert(pd.contains(pd[k]));
        ledger::lemma_slot_row(r, user, pd[k]);
        let i = choose|i: int|
            ledger::is_port(r.ports, pd[k].key as u16, i) && r.ports[i].user_id == user
                && ledger::port_slot(r.ports[i]) == pd[k];
        assert(r.ports[i].port == p);
        if port_is(s, p, user) {
            let j = choose|j: int|
                0 <= j < s.ports.len() && (#[trigger] s.ports[j]).port == p && s.ports[j].user_id
                    == user;
            rows::lemma_filter_source(r.ports, ledger::spared_port(user, d), j);
            let a = choose|a: int| 0 <= a < r.ports.len() && r.ports[a] == s.ports[j];
            if a < i {
                assert(PortRow::apart(r.ports[a], r.ports[i]));
            } else if i < a {
                assert(PortRow::apart(r.ports[i], r.ports[a]));
            }
        }
    }
    if port_is(r, p, user) && !port_is(s, p, user) {
        let i = choose|i: int|
            0 <= i < r.ports.len() && (#[trigger] r.ports[i]).port == p && r.ports[i].user_id
                == user;
        let slot = ledger::port_slot(r.ports[i]);
        if !d.contains(slot) {
            r.ports.lemma_filter_contains(ledger::spared_port(user, d), i);
            let j = choose|j: int| 0 <= j < s.ports.len() && s.ports[j] == r.ports[i];
            assert(s.ports[j].port == p);
        }
        lemma_kept(d, ledger::for_ports(), slot);
        let k = choose|k: int| 0 <= k < pd.len() && pd[k] == slot;
        assert(gone.1[k] == p);
    }
}

proof fn lemma_one_label(r: RegistryView, l: Seq<char>, a: int, b: int)
    requires
        r.wf(),
        0 <= a < r.hosts.len(),
        0 <= b < r.hosts.len(),
        r.hosts[a].label == l,
        r.hosts[b].label == l,
    ensures
        a == b,
{
    if a < b {
        assert(HostRow::apart(r.hosts[a], r.hosts[b]));
    } else if b < a {
        assert(HostRow::apart(r.hosts[b], r.hosts[a]));
    }
}

proof fn lemma_doomed_are_owned(r: RegistryView, user: i64, cap: i64)
    requires
        r.wf(),
    ensures
        forall|x: Slot| r.doomed(user, cap).contains(x) ==> #[trigger] r.owned_slots(user).contains(x),
{
    let all = r.by_age(user);
    let d = r.doomed(user, cap);
    ledger::lemma_by_age(r, user);
    all.to_multiset_ensures();
    r.owned_slots(user).to_multiset_ensures();
    assert forall|x: Slot| d.contains(x) implies #[trigger] r.owned_slots(user).contains(x) by {
        let j = choose|j: int| 0 <= j < d.len() && d[j] == x;
        assert(all.contains(x)) by {
            assert(all[all.len() - d.len() + j] == x);
        }
        assert(all.to_multiset().contains(x));
    }
}

/// The list of tokens has a row for each token of the user asked for, or of
/// everybody: its id, whose it is, its label and whether it was revoked.
pub proof fn token_list_is_complete(r: RegistryView, user: Option<Seq<char>>, row: TokenRowView)
    requires
        r.wf(),
    ensures
        r.token_list(user).contains(row) <==> exists|i: int, j: int|
            0 <= i < r.tokens.len() && 0 <= j < r.users.len() && (#[trigger] r.users[j]).id == (
            #[trigger] r.tokens[i]).user_id && (user is Some ==> r.users[j].name == user->0)
                && row.id == r.tokens[i].id && row.user == r.users[j].name && row.label
                == r.tokens[i].label && row.created_at == r.tokens[i].created_at && row.revoked == (
            r.tokens[i].revoked_at is Some),
{
    let shown = ledger::token_shown(r, user);
    let f = ledger::token_row(r);
    let kept = r.tokens.filter(shown);
    let list = r.token_list(user);
    if list.contains(row) {
        let k = choose|k: int| 0 <= k < list.len() && list[k] == row;
        rows::lemma_filter_source(r.tokens, shown, k);
        let i = choose|i: int| 0 <= i < r.tokens.len() && r.tokens[i] == kept[k];
        let id = r.tokens[i].user_id;
        assert(r.has_user_id(id));
        let j = choose|j: int| ledger::is_user_id(r.users, id, j);
        ledger::lemma_user_id(r, id, j);
        assert(r.users[j].id == r.tokens[i].user_id);
        assert(list[k] == f(kept[k]));
    }
    if exists|i: int, j: int|
        0 <= i < r.tokens.len() && 0 <= j < r.users.len() && (#[trigger] r.users[j]).id == (
        #[trigger] r.tokens[i]).user_id && (user is Some ==> r.users[j].name == user->0) && row.id
            == r.tokens[i].id && row.user == r.users[j].name && row.label == r.tokens[i].label
            && row.created_at == r.tokens[i].created_at && row.revoked == (r.tokens[i].revoked_at
            is Some) {
        let (i, j) = choose|i: int, j: int|
            0 <= i < r.tokens.len() && 0 <= j < r.users.len() && (#[trigger] r.users[j]).id == (
            #[trigger] r.tokens[i]).user_id && (user is Some ==> r.users[j].name == user->0)
                && row.id == r.tokens[i].id && row.user == r.users[j].name && row.label
                == r.tokens[i].label && row.created_at == r.tokens[i].created_at && row.revoked == (
            r.tokens[i].revoked_at is Some);
        assert(ledger::is_user_id(r.users, r.users[j].id, j));
        ledger::lemma_user_id(r, r.users[j].id, j);
        r.tokens.lemma_filter_contains(shown, i);
        let k = choose|k: int| 0 <= k < kept.len() && kept[k] == r.tokens[i];
        assert(list[k] == f(kept[k]));
        assert(f(r.tokens[i]) == row);
    }
}

/// The list of hostnames has an entry for each label of the user asked for, or
/// of everybody, with its owner's name.
pub proof fn host_list_is_complete(
    r: RegistryView,
    user: Option<Seq<char>>,
    l: Seq<char>,
    name: Seq<char>,
)
    requires
        r.wf(),
    ensures
        r.host_list(user).contains((l, name)) <==> exists|i: int, j: int|
            0 <= i < r.hosts.len() && 0 <= j < r.users.len() && (#[trigger] r.users[j]).id == (
            #[trigger] r.hosts[i]).user_id && (user is Some ==> name == user->0) && l
                == r.hosts[i].label && name == r.users[j].name,
{
    let shown = ledger::host_shown(r, user);
    let f = ledger::host_pair(r);
    let kept = r.hosts.filter(shown);
    let list = r.host_list(user);
    if list.contains((l, name)) {
        let k = choose|k: int| 0 <= k < list.len() && list[k] == (l, name);
        rows::lemma_filter_source(r.hosts, shown, k);
        let i = choose|i: int| 0 <= i < r.hosts.len() && r.hosts[i] == kept[k];
        let id = r.hosts[i].user_id;
        assert(r.has_user_id(id));
        let j = choose|j: int| ledger::is_user_id(r.users, id, j);
        ledger::lemma_user_id(r, id, j);
        assert(r.users[j].id == r.hosts[i].user_id);
        assert(list[k] == f(kept[k]));
    }
    if exists|i: int, j: int|
        0 <= i < r.hosts.len() && 0 <= j < r.users.len() && (#[trigger] r.users[j]).id == (
        #[trigger] r.hosts[i]).user_id && (user is Some ==> name == user->0) && l
            == r.hosts[i].label && name == r.users[j].name {
        let (i, j) = choose|i: int, j: int|
            0 <= i < r.hosts.len() && 0 <= j < r.users.len() && (#[trigger] r.users[j]).id == (
            #[trigger] r.hosts[i]).user_id && (user is Some ==> name == user->0) && l
                == r.hosts[i].label && name == r.users[j].name;
        assert(ledger::is_user_id(r.users, r.users[j].id, j));
        ledger::lemma_user_id(r, r.users[j].id, j);
        r.hosts.lemma_filter_contains(shown, i);
        let k = choose|k: int| 0 <= k < kept.len() && kept[k] == r.hosts[i];
        assert(list[k] == f(kept[k]));
        assert(f(r.hosts[i]) == (l, name));
    }
}

/// The list of ports shows each port with its owner's name.
pub proof fn port_list_names_the_owner(r: RegistryView, i: int, j: int)
    requires
        r.wf(),
        0 <= i < r.ports.len(),
        0 <= j < r.users.len(),
        r.users[j].id == r.ports[i].user_id,
    ensures
        ledger::port_pair(r)(r.ports[i]) == (r.ports[i].port, r.users[j].name),
{
    assert(ledger::is_user_id(r.users, r.users[j].id, j));
    ledger::lemma_user_id(r, r.users[j].id, j);
}

/// An error tells whom or what it is about.
pub proof fn errors_name_their_subject(name: Seq<char>, why: Seq<char>, port: u16)
    ensures
        crate::text::occurs(ErrView::NoSuchUser(name).message(), name),
        crate::text::occurs(ErrView::UserExists(name).message(), name),
        crate::text::occurs(ErrView::UserNotEmpty(name).message(), name),
        crate::text::occurs(ErrView::InvalidLabel(name, why).message(), name),
        crate::text::occurs(ErrView::InvalidLabel(name, why).message(), why),
        crate::text::occurs(ErrView::LabelTaken(name).message(), name),
        crate::text::occurs(
            ErrView::PortTaken(port).message(),
            crate::text::decimal(port as nat),
        ),
{
    let none = Seq::<char>::empty();
    crate::text::occurrences_are_found("no such user: "@, name, none);
    assert(ErrView::NoSuchUser(name).message() =~= "no such user: "@ + name + none);
    crate::text::occurrences_are_found("user "@, name, " already exists"@);
    crate::text::occurrences_are_found(
        "user "@,
        name,
        " still owns tokens/hostnames/ports (use --force)"@,
    );
    crate::text::occurrences_are_found("invalid label '"@, name, "': "@ + why);
    assert(ErrView::InvalidLabel(name, why).message() =~= "invalid label '"@ + name + ("': "@
        + why));
    crate::text::occurrences_are_found("invalid label '"@ + name + "': "@, why, none);
    assert(ErrView::InvalidLabel(name, why).message() =~= "invalid label '"@ + name + "': "@ + why
        + none);
    crate::text::occurrences_are_found("label '"@, name, "' is already taken"@);
    crate::text::occurrences_are_found(
        "port "@,
        crate::text::decimal(port as nat),
        " is reserved by another user"@,
    );
}

} // verus!
