//! Administering the registry from the command line.
use vstd::prelude::*;

use crate::order;
use crate::relay::clock::now_unix;
use crate::relay::custody;
use crate::relay::ledger;
use crate::relay::ledger::{ErrView, RegistryView, TokenRowView};
use crate::relay::registry;
use crate::relay::registry::{Registry, RegistryError, TokenRow};
use crate::relay::rows;
use crate::relay::rows::UserView;
use crate::text;

verus! {

/// What the operator asks for.
pub enum AdminAction {
    UserAdd { name: String },
    UserLs,
    UserRm { name: String, force: bool },
    TokenCreate { user: String, label: Option<String> },
    TokenLs { user: Option<String> },
    TokenRevoke { id: i64 },
    HostnameAdd { label: String, user: String },
    HostnameLs { user: Option<String> },
    HostnameRm { label: String },
    PortAdd { port: u16, user: String },
    PortLs,
    PortRm { port: u16 },
}

/// Where database and domain come from: the flags, filled up from the
/// configuration where one is missing.
pub fn admin_source(
    db: Option<String>,
    domain: Option<String>,
    config: Option<(String, String)>,
) -> (r: Result<(String, String), &'static str>)
    ensures
        match r {
            Ok((d, m)) => match (db, domain, config) {
                (Some(x), Some(y), _) => d == x && m == y,
                (x, y, Some((cd, cm))) => d == (match x {
                    Some(x) => x,
                    None => cd,
                }) && m == (match y {
                    Some(y) => y,
                    None => cm,
                }),
                _ => false,
            },
            Err(e) => !(db is Some && domain is Some) && config is None && e@
                == "provide --config, or both --db and --domain"@,
        },
{
    match (db, domain) {
        (Some(d), Some(m)) => Ok((d, m)),
        (d, m) => match config {
            None => Err("provide --config, or both --db and --domain"),
            Some((cd, cm)) => Ok(
                (
                    match d {
                        Some(x) => x,
                        None => cd,
                    },
                    match m {
                        Some(x) => x,
                        None => cm,
                    },
                ),
            ),
        },
    }
}

/// The view of an optional string.
pub open spec fn opt(o: Option<String>) -> Option<Seq<char>> {
    match o {
        Some(s) => Some(s@),
        None => None,
    }
}

fn as_opt(o: &Option<String>) -> (r: Option<&str>)
    ensures
        registry::str_opt(r) == opt(*o),
{
    match o {
        Some(s) => Some(s.as_str()),
        None => None,
    }
}

/// A tab.
pub open spec fn tab() -> Seq<char> {
    "\t"@
}

/// The line of a user.
pub open spec fn user_line() -> spec_fn((i64, Seq<char>, i64)) -> Seq<char> {
    |u: (i64, Seq<char>, i64)| text::decimal_int(u.0 as int) + tab() + u.1
}

/// The line of a token.
pub open spec fn token_line() -> spec_fn(TokenRowView) -> Seq<char> {
    |t: TokenRowView|
        text::decimal_int(t.id as int) + tab() + t.user + tab() + (if t.revoked {
            "revoked"@
        } else {
            "active"@
        }) + tab() + (match t.label {
            Some(l) => l,
            None => Seq::empty(),
        })
}

/// The line of a hostname.
pub open spec fn host_line(domain: Seq<char>) -> spec_fn((Seq<char>, Seq<char>)) -> Seq<char> {
    |p: (Seq<char>, Seq<char>)| p.0 + "."@ + domain + tab() + p.1
}

/// The line of a port.
pub open spec fn port_line() -> spec_fn((u16, Seq<char>)) -> Seq<char> {
    |p: (u16, Seq<char>)| text::decimal(p.0 as nat) + tab() + p.1
}

/// The users of a registry, ordered by name.
pub open spec fn users_listed(v: RegistryView, us: Seq<(i64, Seq<char>, i64)>) -> bool {
    &&& us.to_multiset() == v.users.map_values(
        |u: UserView| (u.id, u.name, u.created_at),
    ).to_multiset()
    &&& order::ascending::<(i64, String, i64)>(us)
}

/// One line, if the step succeeded.
pub open spec fn one_line<T>(r: Result<T, ErrView>, line: Seq<char>) -> Result<
    Seq<Seq<char>>,
    ErrView,
> {
    match r {
        Ok(_) => Ok(seq![line]),
        Err(e) => Err(e),
    }
}

/// View of what an action printed.
pub open spec fn printed(r: Result<Vec<String>, RegistryError>) -> Result<Seq<Seq<char>>, ErrView> {
    match r {
        Ok(v) => Ok(text::all_of(v@)),
        Err(e) => Err(e@),
    }
}

/// An action took the registry from `v` to `w` and printed `out`, given the text
/// of a fresh token and the time.
pub open spec fn admin_step(
    v: RegistryView,
    domain: Seq<char>,
    a: AdminAction,
    token: Seq<char>,
    now: i64,
    w: RegistryView,
    out: Result<Seq<Seq<char>>, ErrView>,
) -> bool {
    match a {
        AdminAction::UserAdd { name } => {
            let (x, r) = v.add_user(name@, now);
            w == x && out == one_line(r, "added user "@ + name@)
        },
        AdminAction::UserLs => w == v && exists|us: Seq<(i64, Seq<char>, i64)>|
            users_listed(v, us) && out == Ok::<Seq<Seq<char>>, ErrView>(
                #[trigger] us.map_values(user_line()),
            ),
        AdminAction::UserRm { name, force } => {
            let (x, r) = v.remove_user(name@, force);
            w == x && out == one_line(r, "removed user "@ + name@)
        },
        AdminAction::TokenCreate { user, label } => {
            let (x, r) = v.create_token(user@, opt(label), token, now);
            w == x && out == one_line(
                r,
                "token for "@ + user@ + " (shown once, store it now):\n\n  "@ + token + "\n"@,
            )
        },
        AdminAction::TokenLs { user } => w == v && out == Ok::<Seq<Seq<char>>, ErrView>(
            v.token_list(opt(user)).map_values(token_line()),
        ),
        AdminAction::TokenRevoke { id } => {
            let (x, done) = v.revoke(id, now);
            w == x && out == Ok::<Seq<Seq<char>>, ErrView>(
                seq![
                    if done {
                        "revoked token "@ + text::decimal_int(id as int)
                    } else {
                        "token "@ + text::decimal_int(id as int) + " not found or already revoked"@
                    },
                ],
            )
        },
        AdminAction::HostnameAdd { label, user } => {
            let (x, r) = v.add_hostname(label@, user@, now);
            w == x && out == one_line(
                r,
                "granted "@ + label@ + "."@ + domain + " to "@ + user@,
            )
        },
        AdminAction::HostnameLs { user } => w == v && out == Ok::<Seq<Seq<char>>, ErrView>(
            v.host_list(opt(user)).sort_by(rows::pair_order()).map_values(host_line(domain)),
        ),
        AdminAction::HostnameRm { label } => {
            let (x, done) = v.remove_hostname(label@);
            w == x && out == Ok::<Seq<Seq<char>>, ErrView>(
                seq![
                    if done {
                        "removed "@ + label@ + "."@ + domain
                    } else {
                        "no such hostname: "@ + label@
                    },
                ],
            )
        },
        AdminAction::PortAdd { port, user } => {
            let (x, r) = v.add_port(port, user@, now);
            w == x && out == one_line(
                r,
                "reserved port "@ + text::decimal(port as nat) + " for "@ + user@,
            )
        },
        AdminAction::PortLs => w == v && out == Ok::<Seq<Seq<char>>, ErrView>(
            v.ports.map_values(ledger::port_pair(v)).map_values(port_line()),
        ),
        AdminAction::PortRm { port } => {
            let (x, done) = v.remove_port(port);
            w == x && out == Ok::<Seq<Seq<char>>, ErrView>(
                seq![
                    if done {
                        "released port "@ + text::decimal(port as nat)
                    } else {
                        "no such reserved port: "@ + text::decimal(port as nat)
                    },
                ],
            )
        },
    }
}

fn single(line: String) -> (r: Vec<String>)
    ensures
        text::all_of(r@) == seq![line@],
{
    let mut out: Vec<String> = Vec::new();
    out.push(line);
    assert(text::all_of(out@) =~= seq![line@]);
    out
}

fn user_lines(us: &Vec<(i64, String, i64)>) -> (r: Vec<String>)
    ensures
        text::all_of(r@) == order::views(us@).map_values(user_line()),
{
    let ghost target = order::views(us@).map_values(user_line());
    let mut out: Vec<String> = Vec::new();
    let mut i: usize = 0;
    assert(text::all_of(out@) =~= target.take(0));
    while i < us.len()
        invariant
            i <= us@.len(),
            target == order::views(us@).map_values(user_line()),
            text::all_of(out@) == target.take(i as int),
        decreases us@.len() - i,
    {
        let line = text::join3(text::decimal_i64(us[i].0).as_str(), "\t", us[i].1.as_str());
        assert(line@ == target[i as int]);
        text::push_line(&mut out, line);
        i += 1;
        assert(text::all_of(out@) =~= target.take(i as int));
    }
    assert(target.take(i as int) =~= target);
    out
}

fn token_lines(ts: &Vec<TokenRow>) -> (r: Vec<String>)
    ensures
        text::all_of(r@) == order::views(ts@).map_values(token_line()),
{
    let ghost target = order::views(ts@).map_values(token_line());
    let mut out: Vec<String> = Vec::new();
    let mut i: usize = 0;
    assert(text::all_of(out@) =~= target.take(0));
    while i < ts.len()
        invariant
            i <= ts@.len(),
            target == order::views(ts@).map_values(token_line()),
            text::all_of(out@) == target.take(i as int),
        decreases ts@.len() - i,
    {
        let t = &ts[i];
        let mut line = text::join3(text::decimal_i64(t.id).as_str(), "\t", t.user.as_str());
        line.append("\t");
        line.append(
            if t.revoked {
                "revoked"
            } else {
                "active"
            },
        );
        line.append("\t");
        let ghost head = line@;
        match &t.label {
            Some(l) => {
                line.append(l.as_str());
            },
            None => {},
        }
        assert(t.label is None ==> line@ =~= head + Seq::<char>::empty());
        assert(line@ == target[i as int]);
        text::push_line(&mut out, line);
        i += 1;
        assert(text::all_of(out@) =~= target.take(i as int));
    }
    assert(target.take(i as int) =~= target);
    out
}

fn host_lines(hs: &Vec<(String, String)>, domain: &str) -> (r: Vec<String>)
    ensures
        text::all_of(r@) == order::views(hs@).map_values(host_line(domain@)),
{
    let ghost target = order::views(hs@).map_values(host_line(domain@));
    let mut out: Vec<String> = Vec::new();
    let mut i: usize = 0;
    assert(text::all_of(out@) =~= target.take(0));
    while i < hs.len()
        invariant
            i <= hs@.len(),
            target == order::views(hs@).map_values(host_line(domain@)),
            text::all_of(out@) == target.take(i as int),
        decreases hs@.len() - i,
    {
        let mut line = text::join3(hs[i].0.as_str(), ".", domain);
        line.append("\t");
        line.append(hs[i].1.as_str());
        assert(line@ == target[i as int]);
        text::push_line(&mut out, line);
        i += 1;
        assert(text::all_of(out@) =~= target.take(i as int));
    }
    assert(target.take(i as int) =~= target);
    out
}

fn port_lines(ps: &Vec<(u16, String)>) -> (r: Vec<String>)
    ensures
        text::all_of(r@) == order::views(ps@).map_values(port_line()),
{
    let ghost target = order::views(ps@).map_values(port_line());
    let mut out: Vec<String> = Vec::new();
    let mut i: usize = 0;
    assert(text::all_of(out@) =~= target.take(0));
    while i < ps.len()
        invariant
            i <= ps@.len(),
            target == order::views(ps@).map_values(port_line()),
            text::all_of(out@) == target.take(i as int),
        decreases ps@.len() - i,
    {
        let line = text::join3(
            text::decimal_u64(ps[i].0 as u64).as_str(),
            "\t",
            ps[i].1.as_str(),
        );
        assert(line@ == target[i as int]);
        text::push_line(&mut out, line);
        i += 1;
        assert(text::all_of(out@) =~= target.take(i as int));
    }
    assert(target.take(i as int) =~= target);
    out
}

/// Carry out an action on the registry with the text of a fresh token and the
/// time given; the lines to print.
pub fn run_admin_with(
    reg: &mut Registry,
    domain: &str,
    action: &AdminAction,
    token: &str,
    now: i64,
) -> (r: Result<Vec<String>, RegistryError>)
    requires
        old(reg).wf(),
    ensures
        final(reg).wf(),
        admin_step(old(reg)@, domain@, *action, token@, now, final(reg)@, printed(r)),
{
    match action {
        AdminAction::UserAdd { name } => match reg.add_user_at(name.as_str(), now) {
            Ok(_) => Ok(single(text::join2("added user ", name.as_str()))),
            Err(e) => Err(e),
        },
        AdminAction::UserLs => match reg.list_users() {
            Ok(us) => {
                assert(users_listed(reg@, order::views(us@)));
                Ok(user_lines(&us))
            },
            Err(e) => Err(e),
        },
        AdminAction::UserRm { name, force } => match reg.remove_user(name.as_str(), *force) {
            Ok(_) => Ok(single(text::join2("removed user ", name.as_str()))),
            Err(e) => Err(e),
        },
        AdminAction::TokenCreate { user, label } => match reg.create_token_with(
            user.as_str(),
            as_opt(label),
            token,
            now,
        ) {
            Ok(_) => {
                let mut s = text::join3(
                    "token for ",
                    user.as_str(),
                    " (shown once, store it now):\n\n  ",
                );
                s.append(token);
                s.append("\n");
                Ok(single(s))
            },
            Err(e) => Err(e),
        },
        AdminAction::TokenLs { user } => match reg.list_tokens(as_opt(user)) {
            Ok(ts) => Ok(token_lines(&ts)),
            Err(e) => Err(e),
        },
        AdminAction::TokenRevoke { id } => match reg.revoke_token_at(*id, now) {
            Ok(done) => {
                let n = text::decimal_i64(*id);
                Ok(
                    single(
                        if done {
                            text::join2("revoked token ", n.as_str())
                        } else {
                            text::join3("token ", n.as_str(), " not found or already revoked")
                        },
                    ),
                )
            },
            Err(e) => Err(e),
        },
        AdminAction::HostnameAdd { label, user } => match reg.add_hostname_at(
            label.as_str(),
            user.as_str(),
            now,
        ) {
            Ok(_) => {
                let mut s = text::join3("granted ", label.as_str(), ".");
                s.append(domain);
                s.append(" to ");
                s.append(user.as_str());
                Ok(single(s))
            },
            Err(e) => Err(e),
        },
        AdminAction::HostnameLs { user } => match reg.list_hostnames(as_opt(user)) {
            Ok(hs) => Ok(host_lines(&hs, domain)),
            Err(e) => Err(e),
        },
        AdminAction::HostnameRm { label } => match reg.remove_hostname(label.as_str()) {
            Ok(done) => Ok(
                single(
                    if done {
                        let mut s = text::join3("removed ", label.as_str(), ".");
                        s.append(domain);
                        s
                    } else {
                        text::join2("no such hostname: ", label.as_str())
                    },
                ),
            ),
            Err(e) => Err(e),
        },
        AdminAction::PortAdd { port, user } => match reg.add_port_at(*port, user.as_str(), now) {
            Ok(_) => {
                let mut s = text::join3(
                    "reserved port ",
                    text::decimal_u64(*port as u64).as_str(),
                    " for ",
                );
                s.append(user.as_str());
                Ok(single(s))
            },
            Err(e) => Err(e),
        },
        AdminAction::PortLs => match reg.list_ports() {
            Ok(ps) => Ok(port_lines(&ps)),
            Err(e) => Err(e),
        },
        AdminAction::PortRm { port } => match reg.remove_port(*port) {
            Ok(done) => {
                let n = text::decimal_u64(*port as u64);
                Ok(
                    single(
                        if done {
                            text::join2("released port ", n.as_str())
                        } else {
                            text::join2("no such reserved port: ", n.as_str())
                        },
                    ),
                )
            },
            Err(e) => Err(e),
        },
    }
}

/// Carry out an action on the registry, with a fresh token where one is needed.
pub fn run_admin(reg: &mut Registry, domain: &str, action: &AdminAction) -> (r: Result<
    Vec<String>,
    RegistryError,
>)
    requires
        old(reg).wf(),
    ensures
        final(reg).wf(),
        exists|token: Seq<char>, now: i64|
            ledger::minted(token) && #[trigger] admin_step(
                old(reg)@,
                domain@,
                *action,
                token,
                now,
                final(reg)@,
                printed(r),
            ),
{
    let token = registry::generate_token();
    let now: i64 = now_unix();
    run_admin_with(reg, domain, action, token.as_str(), now)
}

/// A command that lists changes nothing, and neither does one that fails.
pub proof fn listing_and_failing_change_nothing(
    v: RegistryView,
    domain: Seq<char>,
    a: AdminAction,
    token: Seq<char>,
    now: i64,
    w: RegistryView,
    out: Result<Seq<Seq<char>>, ErrView>,
)
    requires
        admin_step(v, domain, a, token, now, w, out),
    ensures
        a is UserLs || a is TokenLs || a is HostnameLs || a is PortLs ==> w == v && out is Ok,
        out is Err ==> w == v,
{
}

/// What a command reports as done is done: the user is there or gone, the token
/// is the user's and shown, or revoked, the label and the port are the user's
/// or nobody's.
pub proof fn commands_do_what_they_report(
    v: RegistryView,
    domain: Seq<char>,
    a: AdminAction,
    token: Seq<char>,
    now: i64,
    w: RegistryView,
    out: Result<Seq<Seq<char>>, ErrView>,
)
    requires
        v.wf(),
        admin_step(v, domain, a, token, now, w, out),
        out is Ok,
    ensures
        a matches AdminAction::UserAdd { name } ==> custody::name_known(w, name@)
            && !custody::name_known(v, name@) && out->Ok_0 == seq!["added user "@ + name@],
        a matches AdminAction::UserRm { name, force } ==> custody::name_known(v, name@)
            && !custody::name_known(w, name@) && out->Ok_0 == seq!["removed user "@ + name@],
        a matches AdminAction::TokenCreate { user, label } ==> (w.authenticate(token) matches Some(
            who,
        ) && who.name == user@) && out->Ok_0.len() == 1 && text::occurs(out->Ok_0[0], token)
            && w.tokens.last().label == opt(label),
        a matches AdminAction::TokenRevoke { id } ==> w == v.revoke(id, now).0 && out->Ok_0 == seq![
            if exists|i: int|
                0 <= i < v.tokens.len() && (#[trigger] v.tokens[i]).id == id
                    && v.tokens[i].revoked_at is None {
                "revoked token "@ + text::decimal_int(id as int)
            } else {
                "token "@ + text::decimal_int(id as int) + " not found or already revoked"@
            },
        ],
        a matches AdminAction::HostnameAdd { label, user } ==> w.hosts.len() == v.hosts.len() + 1
            && w.hosts.last().label == label@ && custody::user_is(
            v,
            user@,
            w.hosts.last().user_id,
        ) && out->Ok_0 == seq!["granted "@ + label@ + "."@ + domain + " to "@ + user@],
        a matches AdminAction::HostnameRm { label } ==> !custody::label_had(w, label@) && out->Ok_0
            == seq![
            if custody::label_had(v, label@) {
                "removed "@ + label@ + "."@ + domain
            } else {
                "no such hostname: "@ + label@
            },
        ],
        a matches AdminAction::PortAdd { port, user } ==> !custody::port_had(v, port)
            && custody::port_had(w, port) && (exists|id: i64|
            custody::user_is(v, user@, id) && #[trigger] custody::port_is(w, port, id))
            && out->Ok_0 == seq![
            "reserved port "@ + text::decimal(port as nat) + " for "@ + user@,
        ],
        a matches AdminAction::PortRm { port } ==> !custody::port_had(w, port) && out->Ok_0 == seq![
            if custody::port_had(v, port) {
                "released port "@ + text::decimal(port as nat)
            } else {
                "no such reserved port: "@ + text::decimal(port as nat)
            },
        ],
{
    match a {
        AdminAction::UserAdd { name } => {
            custody::new_user_is_found(v, name@, now);
            let n = v.users.len() as int;
            assert(w.users[n].name == name@);
        },
        AdminAction::UserRm { name, force } => {
            custody::lookup_finds_the_user(v, name@);
            let id = v.lookup(name@)->0;
            let i = choose|i: int|
                0 <= i < v.users.len() && (#[trigger] v.users[i]).name == name@ && v.users[i].id
                    == id;
            assert(custody::name_known(v, name@));
            if custody::name_known(w, name@) {
                let j = choose|j: int|
                    0 <= j < w.users.len() && (#[trigger] w.users[j]).name == name@;
                rows::lemma_filter_source(
                    v.users,
                    rows::not_owned_by::<rows::UserRow>(id),
                    j,
                );
                let k = choose|k: int| 0 <= k < v.users.len() && v.users[k] == w.users[j];
                assert(custody::user_is(v, name@, v.users[k].id));
            }
        },
        AdminAction::TokenCreate { user, label } => {
            custody::created_token_is_the_users(v, user@, opt(label), token, now);
            text::occurrences_are_found(
                "token for "@ + user@ + " (shown once, store it now):\n\n  "@,
                token,
                "\n"@,
            );
        },
        AdminAction::TokenRevoke { id } => {
            let live = exists|i: int|
                0 <= i < v.tokens.len() && (#[trigger] v.tokens[i]).id == id
                    && v.tokens[i].revoked_at is None;
            if live {
                let i = choose|i: int|
                    0 <= i < v.tokens.len() && (#[trigger] v.tokens[i]).id == id
                        && v.tokens[i].revoked_at is None;
                assert(ledger::is_token_id(v.tokens, id, i));
            }
            if v.revoke(id, now).1 {
                let i = choose|i: int|
                    ledger::is_token_id(v.tokens, id, i) && v.tokens[i].revoked_at is None;
                assert(v.tokens[i].id == id);
            }
            assert(live == v.revoke(id, now).1);
        },
        AdminAction::HostnameAdd { label, user } => {
            custody::granted_label_is_the_users(v, label@, user@, now);
        },
        AdminAction::HostnameRm { label } => {
            custody::removed_label_is_nobodys(v, label@, arbitrary());
        },
        AdminAction::PortAdd { port, user } => {
            custody::reserved_port_is_the_users(v, port, user@, now, arbitrary());
            let id = v.lookup(user@)->0;
            assert(custody::port_is(w, port, id));
            let i = choose|i: int|
                0 <= i < w.ports.len() && (#[trigger] w.ports[i]).port == port && w.ports[i].user_id
                    == id;
            assert(w.ports[i].port == port);
        },
        AdminAction::PortRm { port } => {
            custody::removed_port_is_nobodys(v, port, arbitrary());
        },
        _ => {},
    }
}

/// A list shows one line per row: who and what it is, apart by tabs.
pub proof fn lists_show_their_rows(
    user: (i64, Seq<char>, i64),
    t: TokenRowView,
    host: (Seq<char>, Seq<char>),
    port: (u16, Seq<char>),
    domain: Seq<char>,
)
    ensures
        user_line()(user) == text::decimal_int(user.0 as int) + "\t"@ + user.1,
        token_line()(t) == text::decimal_int(t.id as int) + "\t"@ + t.user + "\t"@ + (if t.revoked {
            "revoked"@
        } else {
            "active"@
        }) + "\t"@ + (if t.label is Some {
            t.label->0
        } else {
            Seq::empty()
        }),
        host_line(domain)(host) == host.0 + "."@ + domain + "\t"@ + host.1,
        port_line()(port) == text::decimal(port.0 as nat) + "\t"@ + port.1,
{
}

} // verus!
