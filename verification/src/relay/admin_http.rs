//! The provisioning control plane.
//!
//! Mounted as `POST /admin/*` on the control endpoint when provisioning is
//! configured. The caller presents a shared bearer token, compared in constant
//! time. Bodies are small JSON objects with a hard cap on their length; what
//! they decode to is handed in by the program around this module.
use vstd::prelude::*;

use crate::relay::crypto;
use crate::relay::clock::now_unix;
use crate::relay::ledger;
use crate::relay::ledger::{ErrView, RegistryView};
use crate::relay::proxy;
use crate::relay::proxy::{Header, HeaderView, Page, PageView};
use crate::relay::registry;
use crate::relay::registry::{Registry, RegistryError};
use crate::proto::frames;
use crate::text;

verus! {

/// Cap on a request body, in bytes.
pub const MAX_BODY: u64 = 4096;

/// Longest account reference, in bytes.
pub const MAX_EXTERNAL_REF: usize = 64;

/// The registry, and the bearer token a caller must present.
pub struct ProvisionState {
    pub registry: Registry,
    pub token: String,
}

/// Names an account.
#[derive(Clone, Debug)]
pub struct ProvisionReq {
    pub external_ref: String,
}

/// Names an account whose names are to be freed.
#[derive(Clone, Debug)]
pub struct ReleaseReq {
    pub external_ref: String,
    pub release_ports: bool,
}

/// A body as far as it could be read.
pub enum AdminBody {
    /// Over the cap.
    TooLarge,
    /// Not the JSON object the path asks for.
    Invalid,
    /// The body of a provision or a rotation.
    Account(ProvisionReq),
    /// The body of a release.
    Release(ReleaseReq),
}

/// A character of an account reference: printable, no space, no quote and no
/// backslash.
pub open spec fn ref_char(c: char) -> bool {
    '!' <= c && c <= '~' && c != '"' && c != '\\'
}

/// An acceptable account reference.
pub open spec fn good_ref(s: Seq<char>) -> bool {
    &&& s.len() > 0
    &&& vstd::utf8::encode_utf8(s).len() <= MAX_EXTERNAL_REF
    &&& forall|i: int| 0 <= i < s.len() ==> ref_char(#[trigger] s[i])
}

/// An account reference is non-empty, bounded and printable ASCII.
pub fn valid_ref(external_ref: &str) -> (r: bool)
    ensures
        r == good_ref(external_ref@),
{
    if external_ref.is_empty() || external_ref.as_bytes().len() > MAX_EXTERNAL_REF {
        return false;
    }
    let cs = text::chars_of(external_ref);
    let mut i: usize = 0;
    while i < cs.len()
        invariant
            i <= cs@.len(),
            cs@ == external_ref@,
            forall|j: int| 0 <= j < i ==> ref_char(#[trigger] external_ref@[j]),
        decreases cs@.len() - i,
    {
        let c = cs[i];
        if !('!' <= c && c <= '~') || c == '"' || c == '\\' {
            assert(!ref_char(external_ref@[i as int]));
            return false;
        }
        i += 1;
    }
    true
}

/// The request is one for the control plane.
pub fn is_admin_request(configured: bool, method: &str, path: &str) -> (r: bool)
    ensures
        r == (configured && method@ == "POST"@ && "/admin/"@.is_prefix_of(path@)),
{
    configured && text::same(method, "POST") && text::starts_with(path, "/admin/")
}

/// A presented `Authorization` value carries the token.
pub open spec fn bearer(value: Option<Seq<char>>, token: Seq<char>) -> bool {
    match value {
        Some(v) => "Bearer "@.is_prefix_of(v) && vstd::utf8::encode_utf8(
            v.skip("Bearer "@.len() as int),
        ) == vstd::utf8::encode_utf8(token),
        None => false,
    }
}

/// Constant-time bearer check against the configured token.
pub fn authorized(state: &ProvisionState, headers: &Vec<Header>) -> (r: bool)
    ensures
        r == bearer(
            proxy::first_text(proxy::header_views(headers@), "authorization"@),
            state.token@,
        ),
{
    match proxy::header_text(headers, "authorization") {
        Some(v) => match text::strip_prefix(v.as_str(), "Bearer ") {
            Some(t) => crypto::ct_eq(
                t.as_str().as_bytes(),
                state.token.as_str().as_bytes(),
            ),
            None => false,
        },
        None => false,
    }
}

/// A JSON page.
pub open spec fn json_page(status: u16, body: Seq<char>) -> PageView {
    PageView { status, content_type: "application/json"@, body }
}

/// The JSON page of an error code.
pub open spec fn error_page(status: u16, code: Seq<char>) -> PageView {
    json_page(status, "{\"error\":\""@ + code + "\"}"@)
}

fn json(status: u16, body: String) -> (r: Page)
    ensures
        r@ == json_page(status, body@),
{
    proxy::page(status, "application/json", body.as_str())
}

/// Build the JSON page of an error code, which is a plain word.
pub fn err(status: u16, code: &str) -> (r: Page)
    ensures
        r@ == error_page(status, code@),
{
    json(status, text::join3("{\"error\":\"", code, "\"}"))
}

/// The advertised length of a body is over the cap.
pub fn advertised_too_large(headers: &Vec<Header>) -> (r: bool)
    ensures
        r == (match proxy::first_text(proxy::header_views(headers@), "content-length"@) {
            Some(v) => match text::parsed_u64(v) {
                Some(n) => n > MAX_BODY,
                None => false,
            },
            None => false,
        }),
{
    match proxy::header_text(headers, "content-length") {
        Some(v) => match text::parse_u64(v.as_str()) {
            Some(n) => n > MAX_BODY,
            None => false,
        },
        None => false,
    }
}

fn word(b: bool) -> (r: &'static str)
    ensures
        r@ == bool_word(b),
{
    if b {
        "true"
    } else {
        "false"
    }
}

/// A truth value in JSON.
pub open spec fn bool_word(b: bool) -> Seq<char> {
    if b {
        "true"@
    } else {
        "false"@
    }
}

/// The answer to a provision.
pub open spec fn provision_page(r: Result<(Seq<char>, bool), ErrView>) -> PageView {
    match r {
        Ok((token, created)) => json_page(
            200,
            "{\"token\":"@ + crypto::json_quote(token) + ",\"created\":"@ + bool_word(created)
                + "}"@,
        ),
        Err(_) => error_page(500, "db_error"@),
    }
}

/// The answer to a rotation.
pub open spec fn rotate_page(r: Result<(Seq<char>, usize), ErrView>) -> PageView {
    match r {
        Ok((token, revoked)) => json_page(
            200,
            "{\"token\":"@ + crypto::json_quote(token) + ",\"revoked\":"@ + text::decimal(
                revoked as nat,
            ) + "}"@,
        ),
        Err(_) => error_page(500, "db_error"@),
    }
}

/// The JSON forms of strings.
pub open spec fn quoted(s: Seq<Seq<char>>) -> Seq<Seq<char>> {
    s.map_values(|t: Seq<char>| crypto::json_quote(t))
}

/// The JSON forms of port numbers.
pub open spec fn numerals(s: Seq<u16>) -> Seq<Seq<char>> {
    s.map_values(|p: u16| text::decimal(p as nat))
}

/// The answer to a release.
pub open spec fn release_page(r: Result<(Seq<Seq<char>>, Seq<u16>), ErrView>) -> PageView {
    match r {
        Ok((names, ports)) => json_page(
            200,
            "{\"released_hostnames\":["@ + text::joined(quoted(names), ","@)
                + "],\"released_ports\":["@ + text::joined(numerals(ports), ","@) + "]}"@,
        ),
        Err(ErrView::NoSuchUser(_)) => error_page(404, "no_such_user"@),
        Err(_) => error_page(500, "db_error"@),
    }
}

/// Provision an account with a token of the given text.
pub fn handle_provision_with(
    state: &mut ProvisionState,
    req: Option<&ProvisionReq>,
    token: &str,
    now: i64,
) -> (r: Page)
    requires
        old(state).registry.wf(),
    ensures
        final(state).registry.wf(),
        final(state).token == old(state).token,
        (final(state).registry@, r@) == account_step(
            old(state).registry@,
            false,
            ref_of(req),
            token@,
            now,
        ),
{
    let name = match req {
        Some(q) => q.external_ref.as_str(),
        None => {
            return err(400, "invalid_json");
        },
    };
    if !valid_ref(name) {
        return err(400, "invalid_external_ref");
    }
    match state.registry.provision_user_token_with(name, token, now) {
        Ok((token, created)) => {
            let mut s = text::join2("{\"token\":", crypto::quote_json(token.as_str()).as_str());
            s.append(",\"created\":");
            s.append(word(created));
            s.append("}");
            json(200, s)
        },
        Err(_) => err(500, "db_error"),
    }
}

/// Revoke an account's tokens and give it one of the given text.
pub fn handle_rotate_with(
    state: &mut ProvisionState,
    req: Option<&ProvisionReq>,
    token: &str,
    now: i64,
) -> (r: Page)
    requires
        old(state).registry.wf(),
    ensures
        final(state).registry.wf(),
        final(state).token == old(state).token,
        (final(state).registry@, r@) == account_step(
            old(state).registry@,
            true,
            ref_of(req),
            token@,
            now,
        ),
{
    let name = match req {
        Some(q) => q.external_ref.as_str(),
        None => {
            return err(400, "invalid_json");
        },
    };
    if !valid_ref(name) {
        return err(400, "invalid_external_ref");
    }
    match state.registry.rotate_user_token_with(name, token, now) {
        Ok((token, revoked)) => {
            let mut s = text::join2("{\"token\":", crypto::quote_json(token.as_str()).as_str());
            s.append(",\"revoked\":");
            s.append(text::decimal_u64(revoked as u64).as_str());
            s.append("}");
            json(200, s)
        },
        Err(_) => err(500, "db_error"),
    }
}

/// The account a request names; `None` for a body that is no such request.
pub open spec fn ref_of(req: Option<&ProvisionReq>) -> Option<Seq<char>> {
    match req {
        Some(q) => Some(q.external_ref@),
        None => None,
    }
}

/// A provision, or a rotation, on the registry.
pub open spec fn account_step(
    v: RegistryView,
    rotate: bool,
    name: Option<Seq<char>>,
    token: Seq<char>,
    now: i64,
) -> (RegistryView, PageView) {
    match name {
        None => (v, error_page(400, "invalid_json"@)),
        Some(n) => if !good_ref(n) {
            (v, error_page(400, "invalid_external_ref"@))
        } else if rotate {
            (v.rotate(n, token, now).0, rotate_page(v.rotate(n, token, now).1))
        } else {
            (v.provision(n, token, now).0, provision_page(v.provision(n, token, now).1))
        },
    }
}

/// A release on the registry.
pub open spec fn release_step(v: RegistryView, req: Option<(Seq<char>, bool)>) -> (
    RegistryView,
    PageView,
) {
    match req {
        None => (v, error_page(400, "invalid_json"@)),
        Some((n, ports)) => if !good_ref(n) {
            (v, error_page(400, "invalid_external_ref"@))
        } else {
            (v.release(n, ports).0, release_page(v.release(n, ports).1))
        },
    }
}

/// What a release request asks for.
pub open spec fn release_of(req: Option<&ReleaseReq>) -> Option<(Seq<char>, bool)> {
    match req {
        Some(q) => Some((q.external_ref@, q.release_ports)),
        None => None,
    }
}

/// Provision an account: it is created when absent and gets a fresh token.
pub fn handle_provision(state: &mut ProvisionState, req: Option<&ProvisionReq>) -> (r: Page)
    requires
        old(state).registry.wf(),
    ensures
        final(state).registry.wf(),
        final(state).token == old(state).token,
        exists|token: Seq<char>, now: i64|
            ledger::minted(token) && (final(state).registry@, r@) == #[trigger] account_step(
                old(state).registry@,
                false,
                ref_of(req),
                token,
                now,
            ),
{
    let token = registry::generate_token();
    let now: i64 = now_unix();
    handle_provision_with(state, req, token.as_str(), now)
}

/// Rotate an account: every valid token is revoked and one fresh token minted.
pub fn handle_rotate(state: &mut ProvisionState, req: Option<&ProvisionReq>) -> (r: Page)
    requires
        old(state).registry.wf(),
    ensures
        final(state).registry.wf(),
        final(state).token == old(state).token,
        exists|token: Seq<char>, now: i64|
            ledger::minted(token) && (final(state).registry@, r@) == #[trigger] account_step(
                old(state).registry@,
                true,
                ref_of(req),
                token,
                now,
            ),
{
    let token = registry::generate_token();
    let now: i64 = now_unix();
    handle_rotate_with(state, req, token.as_str(), now)
}

fn quote_all(names: &Vec<String>) -> (r: Vec<String>)
    ensures
        text::all_of(r@) == quoted(frames::names(names@)),
{
    let ghost nv = frames::names(names@);
    let mut out: Vec<String> = Vec::new();
    let mut i: usize = 0;
    assert(text::all_of(out@) =~= quoted(nv).take(0));
    while i < names.len()
        invariant
            i <= names@.len(),
            nv == frames::names(names@),
            text::all_of(out@) == quoted(nv).take(i as int),
        decreases names@.len() - i,
    {
        let ghost done = out@;
        let q = crypto::quote_json(names[i].as_str());
        out.push(q);
        i += 1;
        assert(text::all_of(out@) =~= text::all_of(done).push(q@));
        assert(text::all_of(out@) =~= quoted(nv).take(i as int));
    }
    assert(quoted(nv).take(i as int) =~= quoted(nv));
    out
}

fn number_all(ports: &Vec<u16>) -> (r: Vec<String>)
    ensures
        text::all_of(r@) == numerals(ports@),
{
    let mut out: Vec<String> = Vec::new();
    let mut i: usize = 0;
    assert(text::all_of(out@) =~= numerals(ports@).take(0));
    while i < ports.len()
        invariant
            i <= ports@.len(),
            text::all_of(out@) == numerals(ports@).take(i as int),
        decreases ports@.len() - i,
    {
        let ghost done = out@;
        let q = text::decimal_u64(ports[i] as u64);
        out.push(q);
        i += 1;
        assert(text::all_of(out@) =~= text::all_of(done).push(q@));
        assert(text::all_of(out@) =~= numerals(ports@).take(i as int));
    }
    assert(numerals(ports@).take(i as int) =~= numerals(ports@));
    out
}

/// Free an account's names, and its ports when asked. An account that does not
/// exist is answered with 404.
pub fn handle_release(state: &mut ProvisionState, req: Option<&ReleaseReq>) -> (r: Page)
    requires
        old(state).registry.wf(),
    ensures
        final(state).registry.wf(),
        final(state).token == old(state).token,
        (final(state).registry@, r@) == release_step(old(state).registry@, release_of(req)),
{
    let q = match req {
        Some(q) => q,
        None => {
            return err(400, "invalid_json");
        },
    };
    if !valid_ref(q.external_ref.as_str()) {
        return err(400, "invalid_external_ref");
    }
    match state.registry.release_user_hostnames(q.external_ref.as_str(), q.release_ports) {
        Ok((names, ports)) => {
            let n = text::join(&quote_all(&names), ",");
            let p = text::join(&number_all(&ports), ",");
            let mut s = text::join3(
                "{\"released_hostnames\":[",
                n.as_str(),
                "],\"released_ports\":[",
            );
            s.append(p.as_str());
            s.append("]}");
            json(200, s)
        },
        Err(RegistryError::NoSuchUser(_)) => err(404, "no_such_user"),
        Err(_) => err(500, "db_error"),
    }
}

/// The account of a body.
pub open spec fn body_account(b: AdminBody) -> Option<Seq<char>> {
    match b {
        AdminBody::Account(q) => Some(q.external_ref@),
        _ => None,
    }
}

/// The release of a body.
pub open spec fn body_release(b: AdminBody) -> Option<(Seq<char>, bool)> {
    match b {
        AdminBody::Release(q) => Some((q.external_ref@, q.release_ports)),
        _ => None,
    }
}

/// A request to the control plane, its token and time given: authorization
/// first, then the size of the body, then the path.
pub open spec fn admin_step(
    v: RegistryView,
    secret: Seq<char>,
    headers: Seq<HeaderView>,
    path: Seq<char>,
    body: AdminBody,
    token: Seq<char>,
    now: i64,
) -> (RegistryView, PageView) {
    if !bearer(proxy::first_text(headers, "authorization"@), secret) {
        (v, error_page(401, "unauthorized"@))
    } else if body is TooLarge {
        (v, error_page(413, "body_too_large"@))
    } else if path == "/admin/provision"@ {
        account_step(v, false, body_account(body), token, now)
    } else if path == "/admin/rotate"@ {
        account_step(v, true, body_account(body), token, now)
    } else if path == "/admin/release"@ {
        release_step(v, body_release(body))
    } else {
        (v, error_page(404, "not_found"@))
    }
}

/// Answer a request to the control plane, whose body was read and decoded as
/// its path asks.
pub fn handle_with(
    state: &mut ProvisionState,
    headers: &Vec<Header>,
    path: &str,
    body: &AdminBody,
    token: &str,
    now: i64,
) -> (r: Page)
    requires
        old(state).registry.wf(),
    ensures
        final(state).registry.wf(),
        final(state).token == old(state).token,
        (final(state).registry@, r@) == admin_step(
            old(state).registry@,
            old(state).token@,
            proxy::header_views(headers@),
            path@,
            *body,
            token@,
            now,
        ),
{
    if !authorized(state, headers) {
        return err(401, "unauthorized");
    }
    match body {
        AdminBody::TooLarge => {
            return err(413, "body_too_large");
        },
        _ => {},
    }
    if text::same(path, "/admin/provision") {
        match body {
            AdminBody::Account(q) => handle_provision_with(state, Some(q), token, now),
            _ => handle_provision_with(state, None, token, now),
        }
    } else if text::same(path, "/admin/rotate") {
        match body {
            AdminBody::Account(q) => handle_rotate_with(state, Some(q), token, now),
            _ => handle_rotate_with(state, None, token, now),
        }
    } else if text::same(path, "/admin/release") {
        match body {
            AdminBody::Release(q) => handle_release(state, Some(q)),
            _ => handle_release(state, None),
        }
    } else {
        err(404, "not_found")
    }
}

/// Answer a request to the control plane with a fresh token where one is
/// needed.
pub fn handle(
    state: &mut ProvisionState,
    headers: &Vec<Header>,
    path: &str,
    body: &AdminBody,
) -> (r: Page)
    requires
        old(state).registry.wf(),
    ensures
        final(state).registry.wf(),
        final(state).token == old(state).token,
        exists|token: Seq<char>, now: i64|
            ledger::minted(token) && (final(state).registry@, r@) == #[trigger] admin_step(
                old(state).registry@,
                old(state).token@,
                proxy::header_views(headers@),
                path@,
                *body,
                token,
                now,
            ),
{
    let token = registry::generate_token();
    let now: i64 = now_unix();
    handle_with(state, headers, path, body, token.as_str(), now)
}

/// Without the bearer token nothing changes, whatever is asked.
pub proof fn unauthorized_changes_nothing(
    v: RegistryView,
    secret: Seq<char>,
    headers: Seq<HeaderView>,
    path: Seq<char>,
    body: AdminBody,
    token: Seq<char>,
    now: i64,
)
    requires
        !bearer(proxy::first_text(headers, "authorization"@), secret),
    ensures
        admin_step(v, secret, headers, path, body, token, now) == (
            v,
            error_page(401, "unauthorized"@),
        ),
{
}

/// A reference that is not acceptable changes nothing and is answered with 400.
pub proof fn bad_reference_changes_nothing(
    v: RegistryView,
    rotate: bool,
    name: Seq<char>,
    ports: bool,
    token: Seq<char>,
    now: i64,
)
    requires
        !good_ref(name),
    ensures
        account_step(v, rotate, Some(name), token, now) == (
            v,
            error_page(400, "invalid_external_ref"@),
        ),
        release_step(v, Some((name, ports))) == (v, error_page(400, "invalid_external_ref"@)),
{
}

/// A caller is admitted exactly by the word `Bearer`, a space and the secret.
pub proof fn only_the_secret_admits(v: Seq<char>, secret: Seq<char>)
    ensures
        bearer(Some(v), secret) <==> v == "Bearer "@ + secret,
        !bearer(None, secret),
{
    let head = "Bearer "@;
    let n = head.len() as int;
    if v == head + secret {
        assert(v.subrange(0, n) =~= head);
        assert(v.skip(n) =~= secret);
    }
    if bearer(Some(v), secret) {
        vstd::utf8::encode_utf8_decode_utf8(v.skip(n));
        vstd::utf8::encode_utf8_decode_utf8(secret);
        assert(v =~= head + v.skip(n));
    }
}

/// A reference is good if it has one to sixty-four characters, all of them
/// visible ASCII, without quotes and backslashes.
pub proof fn good_references(s: Seq<char>)
    ensures
        good_ref(s) <==> 1 <= s.len() <= 64 && forall|i: int|
            0 <= i < s.len() ==> '!' <= (#[trigger] s[i]) <= '~' && s[i] != '"' && s[i]
                != '\\',
{
    if forall|i: int| 0 <= i < s.len() ==> ref_char(#[trigger] s[i]) {
        lemma_ascii_len(s);
        assert forall|i: int| 0 <= i < s.len() implies '!' <= (#[trigger] s[i]) <= '~' && s[i]
            != '"' && s[i] != '\\' by {
            assert(ref_char(s[i]));
        }
    } else {
        let i = choose|i: int| 0 <= i < s.len() && !ref_char(#[trigger] s[i]);
        assert(!ref_char(s[i]));
    }
}

proof fn lemma_ascii_len(s: Seq<char>)
    requires
        forall|i: int| 0 <= i < s.len() ==> ref_char(#[trigger] s[i]),
    ensures
        vstd::utf8::encode_utf8(s).len() == s.len(),
    decreases s.len(),
{
    if s.len() > 0 {
        let rest = s.drop_first();
        assert forall|i: int| 0 <= i < rest.len() implies ref_char(#[trigger] rest[i]) by {
            assert(ref_char(s[i + 1]));
        }
        lemma_ascii_len(rest);
        assert(ref_char(s[0]));
    }
}

/// An authorized request does what its path says, for the account it names, and
/// says how it went. A body that is too large, or that is not what the path
/// takes, a bad reference and an unknown path are refused, each with its own
/// status, and change nothing.
pub proof fn requests_do_what_they_say(
    v: RegistryView,
    secret: Seq<char>,
    headers: Seq<HeaderView>,
    path: Seq<char>,
    body: AdminBody,
    token: Seq<char>,
    now: i64,
)
    requires
        proxy::first_text(headers, "authorization"@) == Some("Bearer "@ + secret),
    ensures
        ({
            let (w, page) = admin_step(v, secret, headers, path, body, token, now);
            let name = if body is Account {
                body->Account_0.external_ref@
            } else {
                body->Release_0.external_ref@
            };
            &&& page.content_type == "application/json"@
            &&& page.status != 200 && page.status != 500 ==> w == v
            &&& body is TooLarge ==> page.status == 413
            &&& !(body is TooLarge) && path != "/admin/provision"@ && path != "/admin/rotate"@
                && path != "/admin/release"@ ==> page.status == 404
            &&& path == "/admin/provision"@ && body is Account && good_ref(name) ==> w
                == v.provision(name, token, now).0 && page.status == (if v.provision(
                name,
                token,
                now,
            ).1 is Ok {
                200u16
            } else {
                500u16
            })
            &&& path == "/admin/rotate"@ && body is Account && good_ref(name) ==> w == v.rotate(
                name,
                token,
                now,
            ).0 && page.status == (if v.rotate(name, token, now).1 is Ok {
                200u16
            } else {
                500u16
            })
            &&& path == "/admin/release"@ && body is Release && good_ref(name) ==> w == v.release(
                name,
                body->Release_0.release_ports,
            ).0 && page.status == (if v.lookup(name) is Some {
                200u16
            } else {
                404u16
            })
            &&& (path == "/admin/provision"@ || path == "/admin/rotate"@) && !(body is TooLarge)
                && (!(body is Account) || !good_ref(name)) ==> page.status == 400
            &&& path == "/admin/release"@ && !(body is TooLarge) && (!(body is Release)
                || !good_ref(name)) ==> page.status == 400
        }),
{
    only_the_secret_admits("Bearer "@ + secret, secret);
    reveal_strlit("/admin/provision");
    reveal_strlit("/admin/rotate");
    reveal_strlit("/admin/release");
    assert("/admin/provision"@.len() != "/admin/rotate"@.len());
    assert("/admin/provision"@.len() != "/admin/release"@.len());
    assert("/admin/rotate"@.len() != "/admin/release"@.len());
}

/// A success carries what the caller needs: the fresh token, quoted, and
/// whether an account was made, how many tokens were revoked, or what was
/// released.
pub proof fn successes_carry_their_result(
    token: Seq<char>,
    created: bool,
    revoked: usize,
    names: Seq<Seq<char>>,
    ports: Seq<u16>,
)
    ensures
        provision_page(Ok((token, created))).body == "{\"token\":"@ + crypto::json_quote(token)
            + ",\"created\":"@ + (if created {
            "true"@
        } else {
            "false"@
        }) + "}"@,
        rotate_page(Ok((token, revoked))).body == "{\"token\":"@ + crypto::json_quote(token)
            + ",\"revoked\":"@ + text::decimal(revoked as nat) + "}"@,
        names.len() == 1 && ports.len() == 1 ==> release_page(Ok((names, ports))).body
            == "{\"released_hostnames\":["@ + crypto::json_quote(names[0])
            + "],\"released_ports\":["@ + text::decimal(ports[0] as nat) + "]}"@,
        quoted(names).len() == names.len(),
        numerals(ports).len() == ports.len(),
        forall|i: int|
            0 <= i < names.len() ==> #[trigger] quoted(names)[i] == crypto::json_quote(names[i]),
        forall|i: int|
            0 <= i < ports.len() ==> #[trigger] numerals(ports)[i] == text::decimal(ports[i] as nat),
{
}

/// A refusal is a JSON object with the status and the reason.
pub proof fn refusals_say_why(status: u16, code: Seq<char>)
    ensures
        error_page(status, code).status == status,
        error_page(status, code).content_type == "application/json"@,
        error_page(status, code).body == "{\"error\":\""@ + code + "\"}"@,
{
}

} // verus!
