//! Signed entitlements: verification, cache, and the claim-time gate.
//!
//! The relay enforces a per-customer cap at claim time without calling the
//! licence service on the hot path. Envelopes are pulled in the background,
//! verified against a pinned key and cached; decisions read only the cache. A
//! cached value is honoured up to a ceiling past its expiry.
use vstd::prelude::*;

use crate::order;
use crate::proto::frames;
use crate::proto::frames::ControlFrame;
use crate::relay::cap;
use crate::relay::cap::LiveView;
use crate::relay::crypto;
use crate::relay::ledger::DbFault;
use crate::relay::registry::Registry;
use crate::relay::router::{Router, SessionHandle};
use crate::relay::rows;
use crate::relay::timestamp;
use crate::text;

pub use crate::relay::cap::CapDecision;
pub use crate::relay::clock::now_unix;
pub use crate::relay::timestamp::parse_unix_z;

verus! {

/// The signed payload.
#[derive(Debug, Clone)]
pub struct EntitlementPayload {
    pub customer_id: i64,
    pub external_ref: Option<String>,
    pub product: String,
    /// Granted features: the name, and the compact JSON of the value.
    pub entitlements: Vec<(String, String)>,
    pub status: String,
    pub issued_at: String,
    pub expires_at: String,
    pub key_id: String,
}

/// A payload with its signature.
#[derive(Debug, Clone)]
pub struct SignedEnvelope {
    pub payload: EntitlementPayload,
    /// Standard base64 of the Ed25519 signature over the payload's canonical
    /// bytes.
    pub signature: String,
    pub key_id: String,
}

/// View of an [`EntitlementPayload`].
#[verifier::ext_equal]
pub struct PayloadView {
    pub customer_id: i64,
    pub external_ref: Option<Seq<char>>,
    pub product: Seq<char>,
    pub entitlements: Seq<(Seq<char>, Seq<char>)>,
    pub status: Seq<char>,
    pub issued_at: Seq<char>,
    pub expires_at: Seq<char>,
    pub key_id: Seq<char>,
}

/// View of a [`SignedEnvelope`].
#[verifier::ext_equal]
pub struct EnvelopeView {
    pub payload: PayloadView,
    pub signature: Seq<char>,
    pub key_id: Seq<char>,
}

impl View for EntitlementPayload {
    type V = PayloadView;

    open spec fn view(&self) -> PayloadView {
        PayloadView {
            customer_id: self.customer_id,
            external_ref: rows::opt_view(self.external_ref),
            product: self.product@,
            entitlements: order::views(self.entitlements@),
            status: self.status@,
            issued_at: self.issued_at@,
            expires_at: self.expires_at@,
            key_id: self.key_id@,
        }
    }
}

impl View for SignedEnvelope {
    type V = EnvelopeView;

    open spec fn view(&self) -> EnvelopeView {
        EnvelopeView {
            payload: self.payload@,
            signature: self.signature@,
            key_id: self.key_id@,
        }
    }
}

/// Members of a JSON object, separated by commas.
pub open spec fn json_members(s: Seq<(Seq<char>, Seq<char>)>) -> Seq<char>
    decreases s.len(),
{
    if s.len() == 0 {
        Seq::empty()
    } else {
        let member = crypto::json_quote(s.last().0) + ":"@ + s.last().1;
        if s.len() == 1 {
            member
        } else {
            json_members(s.drop_last()) + ","@ + member
        }
    }
}

/// The canonical text of a payload: compact JSON with its keys, and those of
/// the features, in ascending order.
pub open spec fn canonical(p: PayloadView) -> Seq<char> {
    let ext = match p.external_ref {
        Some(r) => crypto::json_quote(r),
        None => "null"@,
    };
    "{\"customer_id\":"@ + text::decimal_int(p.customer_id as int) + ",\"entitlements\":{"@
        + json_members(p.entitlements.sort_by(rows::pair_order())) + "},\"expires_at\":"@
        + crypto::json_quote(p.expires_at) + ",\"external_ref\":"@ + ext + ",\"issued_at\":"@
        + crypto::json_quote(p.issued_at) + ",\"key_id\":"@ + crypto::json_quote(p.key_id)
        + ",\"product\":"@ + crypto::json_quote(p.product) + ",\"status\":"@ + crypto::json_quote(
        p.status,
    ) + "}"@
}

/// A copy of a list of pairs.
fn dup_pairs(v: &Vec<(String, String)>) -> (r: Vec<(String, String)>)
    ensures
        order::views(r@) == order::views(v@),
{
    let mut out: Vec<(String, String)> = Vec::new();
    let mut i: usize = 0;
    assert(order::views(out@) =~= order::views(v@).take(0));
    while i < v.len()
        invariant
            i <= v@.len(),
            order::views(out@) == order::views(v@).take(i as int),
        decreases v@.len() - i,
    {
        let ghost done = out@;
        let one = (v[i].0.clone(), v[i].1.clone());
        out.push(one);
        i += 1;
        assert(order::views(out@) =~= order::views(done).push(one@));
        assert(order::views(out@) =~= order::views(v@).take(i as int));
    }
    assert(order::views(v@).take(i as int) =~= order::views(v@));
    out
}

/// Members of a JSON object, separated by commas.
fn members_text(v: &Vec<(String, String)>) -> (r: String)
    ensures
        r@ == json_members(order::views(v@)),
{
    let ghost s = order::views(v@);
    let mut out = String::new();
    let mut i: usize = 0;
    assert(out@ =~= json_members(s.take(0)));
    while i < v.len()
        invariant
            i <= v@.len(),
            s == order::views(v@),
            out@ == json_members(s.take(i as int)),
        decreases v@.len() - i,
    {
        let ghost done = out@;
        assert(s.take(i + 1).drop_last() =~= s.take(i as int));
        assert(s.take(i + 1).last() == s[i as int]);
        if i > 0 {
            out.append(",");
        }
        let k = crypto::quote_json(v[i].0.as_str());
        out.append(k.as_str());
        out.append(":");
        out.append(v[i].1.as_str());
        let ghost member = k@ + ":"@ + v@[i as int].1@;
        proof {
            if i > 0 {
                assert(out@ =~= done + ","@ + member);
            } else {
                assert(out@ =~= member);
            }
        }
        i += 1;
    }
    assert(s.take(i as int) =~= s);
    out
}

/// The canonical bytes of a payload, over which it is signed.
pub fn canonical_bytes(p: &EntitlementPayload) -> (r: Vec<u8>)
    ensures
        r@ == vstd::utf8::encode_utf8(canonical(p@)),
{
    let sorted = rows::sort_pairs(dup_pairs(&p.entitlements));
    let members = members_text(&sorted);
    let mut s = "{\"customer_id\":".to_owned();
    s.append(text::decimal_i64(p.customer_id).as_str());
    s.append(",\"entitlements\":{");
    s.append(members.as_str());
    s.append("},\"expires_at\":");
    s.append(crypto::quote_json(p.expires_at.as_str()).as_str());
    s.append(",\"external_ref\":");
    match &p.external_ref {
        Some(e) => s.append(crypto::quote_json(e.as_str()).as_str()),
        None => s.append("null"),
    }
    s.append(",\"issued_at\":");
    s.append(crypto::quote_json(p.issued_at.as_str()).as_str());
    s.append(",\"key_id\":");
    s.append(crypto::quote_json(p.key_id.as_str()).as_str());
    s.append(",\"product\":");
    s.append(crypto::quote_json(p.product.as_str()).as_str());
    s.append(",\"status\":");
    s.append(crypto::quote_json(p.status.as_str()).as_str());
    s.append("}");
    s.as_str().as_bytes_vec()
}

/// An envelope carries a valid signature under a key in standard base64.
pub open spec fn genuine(env: EnvelopeView, public_key_b64: Seq<char>) -> bool {
    let key = crypto::base64_bytes(public_key_b64);
    let sig = crypto::base64_bytes(env.signature);
    &&& key is Some && key->0.len() == 32
    &&& sig is Some && sig->0.len() == 64
    &&& crypto::ed25519_valid(
        key->0,
        vstd::utf8::encode_utf8(canonical(env.payload)),
        sig->0,
    )
}

/// Verify an envelope against a pinned public key in standard base64.
pub fn verify_envelope(env: &SignedEnvelope, public_key_b64: &str) -> (r: bool)
    ensures
        r == genuine(env@, public_key_b64@),
{
    let key = match crypto::base64_decode(public_key_b64) {
        Some(k) => k,
        None => return false,
    };
    if key.len() != 32 {
        return false;
    }
    let sig = match crypto::base64_decode(env.signature.as_str()) {
        Some(s) => s,
        None => return false,
    };
    if sig.len() != 64 {
        return false;
    }
    let message = canonical_bytes(&env.payload);
    crypto::ed25519_check(key.as_slice(), message.as_slice(), sig.as_slice())
}

/// A cached, verified entitlement of one customer, keyed by `external_ref`,
/// which is the registry's user name.
#[derive(Debug, Clone, PartialEq, Eq)]
pub struct Entitlement {
    pub external_ref: String,
    pub customer_id: i64,
    /// `None`: no cap was granted, so none applies.
    pub max_tunnels: Option<i64>,
    pub status: String,
    pub issued_at: i64,
    pub expires_at: i64,
    pub updated_at: i64,
}

/// View of an [`Entitlement`].
#[verifier::ext_equal]
pub struct EntView {
    pub external_ref: Seq<char>,
    pub customer_id: i64,
    pub max_tunnels: Option<i64>,
    pub status: Seq<char>,
    pub issued_at: i64,
    pub expires_at: i64,
    pub updated_at: i64,
}

impl View for Entitlement {
    type V = EntView;

    open spec fn view(&self) -> EntView {
        EntView {
            external_ref: self.external_ref@,
            customer_id: self.customer_id,
            max_tunnels: self.max_tunnels,
            status: self.status@,
            issued_at: self.issued_at,
            expires_at: self.expires_at,
            updated_at: self.updated_at,
        }
    }
}

/// A copy of an entitlement.
fn dup_ent(e: &Entitlement) -> (r: Entitlement)
    ensures
        r@ == e@,
{
    Entitlement {
        external_ref: e.external_ref.clone(),
        customer_id: e.customer_id,
        max_tunnels: e.max_tunnels,
        status: e.status.clone(),
        issued_at: e.issued_at,
        expires_at: e.expires_at,
        updated_at: e.updated_at,
    }
}

/// Row `i` is the entitlement of this customer.
pub open spec fn is_ent(s: Seq<EntView>, external_ref: Seq<char>, i: int) -> bool {
    0 <= i < s.len() && s[i].external_ref == external_ref
}

/// No customer has two rows.
pub open spec fn distinct_refs(s: Seq<EntView>) -> bool {
    forall|i: int, j: int|
        0 <= i < j < s.len() ==> (#[trigger] s[i]).external_ref != (#[trigger] s[j]).external_ref
}

/// The entitlement of a customer, if one is cached.
pub open spec fn cached(s: Seq<EntView>, external_ref: Seq<char>) -> Option<EntView> {
    if exists|i: int| is_ent(s, external_ref, i) {
        Some(s[choose|i: int| is_ent(s, external_ref, i)])
    } else {
        None
    }
}

/// The cache after storing an entitlement: in the place of the customer's row,
/// or at the end.
pub open spec fn upserted(s: Seq<EntView>, e: EntView) -> Seq<EntView> {
    if exists|i: int| is_ent(s, e.external_ref, i) {
        s.update(choose|i: int| is_ent(s, e.external_ref, i), e)
    } else {
        s.push(e)
    }
}

/// The row of a customer is the only one.
pub proof fn lemma_cached(s: Seq<EntView>, external_ref: Seq<char>, i: int)
    requires
        distinct_refs(s),
        is_ent(s, external_ref, i),
    ensures
        cached(s, external_ref) == Some(s[i]),
        (choose|j: int| is_ent(s, external_ref, j)) == i,
{
    let j = choose|j: int| is_ent(s, external_ref, j);
    if i < j {
        assert(s[i].external_ref != s[j].external_ref);
    } else if j < i {
        assert(s[j].external_ref != s[i].external_ref);
    }
}

/// Storing an entitlement keeps customers distinct, makes it the customer's
/// one, and touches no other.
pub proof fn upsert_replaces(s: Seq<EntView>, e: EntView)
    requires
        distinct_refs(s),
    ensures
        distinct_refs(upserted(s, e)),
        cached(upserted(s, e), e.external_ref) == Some(e),
        forall|r: Seq<char>|
            r != e.external_ref ==> #[trigger] cached(upserted(s, e), r) == cached(s, r),
{
    let t = upserted(s, e);
    let k = if exists|i: int| is_ent(s, e.external_ref, i) {
        choose|i: int| is_ent(s, e.external_ref, i)
    } else {
        s.len() as int
    };
    assert forall|i: int, j: int| 0 <= i < j < t.len() implies (#[trigger] t[i]).external_ref != (
    #[trigger] t[j]).external_ref by {
        if i != k && j != k {
            assert(s[i].external_ref != s[j].external_ref);
        } else if i == k {
            if k < s.len() {
                assert(s[i].external_ref != s[j].external_ref);
            }
        } else {
            assert(t[i] == s[i]);
            if k < s.len() {
                assert(s[i].external_ref != s[j].external_ref);
            } else {
                assert(!is_ent(s, e.external_ref, i));
            }
        }
    }
    assert(is_ent(t, e.external_ref, k));
    lemma_cached(t, e.external_ref, k);
    assert forall|r: Seq<char>| r != e.external_ref implies #[trigger] cached(t, r) == cached(
        s,
        r,
    ) by {
        if exists|i: int| is_ent(s, r, i) {
            let i = choose|i: int| is_ent(s, r, i);
            lemma_cached(s, r, i);
            assert(is_ent(t, r, i));
            lemma_cached(t, r, i);
        } else if exists|i: int| is_ent(t, r, i) {
            let i = choose|i: int| is_ent(t, r, i);
            assert(i != k);
            assert(is_ent(s, r, i));
        }
    }
}

/// Cache of verified entitlements.
pub struct EntitlementCache {
    rows: Vec<Entitlement>,
}

impl View for EntitlementCache {
    type V = Seq<EntView>;

    closed spec fn view(&self) -> Seq<EntView> {
        order::views(self.rows@)
    }
}

impl EntitlementCache {
    /// No customer has two rows.
    pub open spec fn wf(&self) -> bool {
        distinct_refs(self@)
    }

    /// An empty cache.
    pub fn open_in_memory() -> (r: Result<Self, DbFault>)
        ensures
            r is Ok,
            r->Ok_0.wf(),
            r->Ok_0@ == Seq::<EntView>::empty(),
    {
        let c = EntitlementCache { rows: Vec::new() };
        assert(c@ =~= Seq::<EntView>::empty());
        Ok(c)
    }

    /// Row of a customer.
    fn find(&self, external_ref: &str) -> (r: Option<usize>)
        requires
            self.wf(),
        ensures
            match r {
                Some(i) => is_ent(self@, external_ref@, i as int) && cached(self@, external_ref@)
                    == Some(self@[i as int]) && (choose|j: int| is_ent(self@, external_ref@, j))
                    == i,
                None => cached(self@, external_ref@) is None && !exists|j: int|
                    is_ent(self@, external_ref@, j),
            },
    {
        let mut i: usize = 0;
        while i < self.rows.len()
            invariant
                i <= self.rows@.len(),
                self.wf(),
                forall|j: int| 0 <= j < i ==> !#[trigger] is_ent(self@, external_ref@, j),
            decreases self.rows@.len() - i,
        {
            if text::same(self.rows[i].external_ref.as_str(), external_ref) {
                proof {
                    lemma_cached(self@, external_ref@, i as int);
                }
                return Some(i);
            }
            i += 1;
        }
        assert forall|j: int| !#[trigger] is_ent(self@, external_ref@, j) by {
            if 0 <= j < self@.len() {
                assert(j < i);
            }
        }
        None
    }

    /// Insert or replace the entitlement of a customer.
    pub fn upsert(&mut self, e: &Entitlement) -> (r: Result<(), DbFault>)
        requires
            old(self).wf(),
        ensures
            final(self).wf(),
            r is Ok,
            final(self)@ == upserted(old(self)@, e@),
    {
        proof {
            upsert_replaces(self@, e@);
        }
        let ghost before = self@;
        let row = dup_ent(e);
        match self.find(e.external_ref.as_str()) {
            Some(i) => {
                self.rows.set(i, row);
                assert(self@ =~= before.update(i as int, e@));
            },
            None => {
                self.rows.push(row);
                assert(self@ =~= before.push(e@));
            },
        }
        Ok(())
    }

    /// Every cached customer.
    pub fn all_external_refs(&self) -> (r: Result<Vec<String>, DbFault>)
        ensures
            r is Ok,
            frames::names(r->Ok_0@) == refs(self@),
    {
        let mut out: Vec<String> = Vec::new();
        let mut i: usize = 0;
        assert(frames::names(out@) =~= refs(self@).take(0));
        while i < self.rows.len()
            invariant
                i <= self.rows@.len(),
                frames::names(out@) == refs(self@).take(i as int),
            decreases self.rows@.len() - i,
        {
            let ghost done = out@;
            let one = self.rows[i].external_ref.clone();
            out.push(one);
            i += 1;
            assert(frames::names(out@) =~= frames::names(done).push(one@));
            assert(frames::names(out@) =~= refs(self@).take(i as int));
        }
        assert(refs(self@).take(i as int) =~= refs(self@));
        Ok(out)
    }

    /// The entitlement of a customer, if one is cached.
    pub fn get(&self, external_ref: &str) -> (r: Result<Option<Entitlement>, DbFault>)
        requires
            self.wf(),
        ensures
            r is Ok,
            ent_opt(r->Ok_0) == cached(self@, external_ref@),
    {
        match self.find(external_ref) {
            Some(i) => Ok(Some(dup_ent(&self.rows[i]))),
            None => Ok(None),
        }
    }

    /// The rows, for storing them.
    pub fn entries(&self) -> (r: &Vec<Entitlement>)
        ensures
            order::views(r@) == self@,
    {
        &self.rows
    }
}

/// View of an optional entitlement.
pub open spec fn ent_opt(o: Option<Entitlement>) -> Option<EntView> {
    match o {
        Some(e) => Some(e@),
        None => None,
    }
}

/// The customers of a cache.
pub open spec fn refs(s: Seq<EntView>) -> Seq<Seq<char>> {
    s.map_values(|e: EntView| e.external_ref)
}

/// Policy and pinned key of an entitlement gate.
#[derive(Clone)]
pub struct KeygatePolicy {
    pub product: String,
    pub public_key_b64: String,
    pub key_id: String,
    /// Honour a cached entitlement at most this many seconds past its expiry.
    pub staleness_ceiling_secs: i64,
    /// Whether a user without a fresh entitlement is denied.
    pub require_entitlement: bool,
}

/// View of a [`KeygatePolicy`].
#[verifier::ext_equal]
pub struct PolicyView {
    pub product: Seq<char>,
    pub public_key_b64: Seq<char>,
    pub key_id: Seq<char>,
    pub ceiling: i64,
    pub required: bool,
}

impl View for KeygatePolicy {
    type V = PolicyView;

    open spec fn view(&self) -> PolicyView {
        PolicyView {
            product: self.product@,
            public_key_b64: self.public_key_b64@,
            key_id: self.key_id@,
            ceiling: self.staleness_ceiling_secs,
            required: self.require_entitlement,
        }
    }
}

/// The JSON text of a feature, if it is granted.
pub open spec fn feature(s: Seq<(Seq<char>, Seq<char>)>, name: Seq<char>) -> Option<Seq<char>>
    decreases s.len(),
{
    if s.len() == 0 {
        None
    } else if s[0].0 == name {
        Some(s[0].1)
    } else {
        feature(s.drop_first(), name)
    }
}

/// Gate: a cache and the policy that interprets it.
#[verifier::ext_equal]
pub struct GateView {
    pub cache: Seq<EntView>,
    pub policy: PolicyView,
}

impl GateView {
    /// What a user without an entitlement gets.
    pub open spec fn missing(self) -> CapDecision {
        if self.policy.required {
            CapDecision::DenyAll
        } else {
            CapDecision::Allow
        }
    }

    /// The decision for a user at `now`.
    pub open spec fn cap_for(self, external_ref: Seq<char>, now: i64) -> CapDecision {
        match cached(self.cache, external_ref) {
            None => self.missing(),
            Some(e) => if now > e.expires_at + self.policy.ceiling {
                self.missing()
            } else if e.status == "suspended"@ {
                CapDecision::DenyAll
            } else {
                match e.max_tunnels {
                    Some(m) => CapDecision::Cap(m),
                    None => CapDecision::Allow,
                }
            },
        }
    }

    /// The number of resources a user may keep; `None` for no limit.
    pub open spec fn reconcile_cap(self, external_ref: Seq<char>, now: i64) -> Option<i64> {
        match self.cap_for(external_ref, now) {
            CapDecision::Allow => None,
            CapDecision::Cap(m) => Some(
                if m < 0 {
                    0i64
                } else {
                    m
                },
            ),
            CapDecision::DenyAll => Some(0i64),
        }
    }

    /// The entitlement an envelope grants, if it is acceptable.
    pub open spec fn granted(self, env: EnvelopeView, now: i64) -> Option<EntView> {
        let p = env.payload;
        let issued = timestamp::unix_z(p.issued_at);
        let expires = timestamp::unix_z(p.expires_at);
        if env.key_id == self.policy.key_id && p.key_id == self.policy.key_id && p.product
            == self.policy.product && genuine(env, self.policy.public_key_b64)
            && p.external_ref is Some && issued is Some && expires is Some {
            Some(
                EntView {
                    external_ref: p.external_ref->0,
                    customer_id: p.customer_id,
                    max_tunnels: match feature(p.entitlements, "max_tunnels"@) {
                        Some(v) => crypto::json_integer(v),
                        None => None,
                    },
                    status: p.status,
                    issued_at: issued->0 as i64,
                    expires_at: expires->0 as i64,
                    updated_at: now,
                },
            )
        } else {
            None
        }
    }

    /// What the cache becomes after an envelope arrived.
    pub open spec fn accept(self, env: EnvelopeView, now: i64) -> Self {
        match self.granted(env, now) {
            Some(e) => GateView { cache: upserted(self.cache, e), ..self },
            None => self,
        }
    }

    /// What the cache becomes after a batch of envelopes, in order.
    pub open spec fn ingest(self, envs: Seq<EnvelopeView>, now: i64) -> Self
        decreases envs.len(),
    {
        if envs.len() == 0 {
            self
        } else {
            self.ingest(envs.drop_last(), now).accept(envs.last(), now)
        }
    }

    /// How many envelopes of a batch are accepted.
    pub open spec fn accepted(self, envs: Seq<EnvelopeView>, now: i64) -> nat
        decreases envs.len(),
    {
        if envs.len() == 0 {
            0
        } else {
            self.accepted(envs.drop_last(), now) + (if self.ingest(envs.drop_last(), now).granted(
                envs.last(),
                now,
            ) is Some {
                1nat
            } else {
                0nat
            })
        }
    }

    /// Bring one user's live state to its cap.
    pub open spec fn reconcile(self, live: LiveView, external_ref: Seq<char>, now: i64) -> (
        LiveView,
        nat,
    ) {
        match (self.reconcile_cap(external_ref, now), live.registry.lookup(external_ref)) {
            (Some(cap), Some(id)) => live.prune(id, cap, "plan downgrade reduced your limit"@),
            _ => (live, 0),
        }
    }

    /// Bring every user of a list to its cap, in order.
    pub open spec fn reconcile_list(self, live: LiveView, users: Seq<Seq<char>>, now: i64) -> (
        LiveView,
        nat,
    )
        decreases users.len(),
    {
        if users.len() == 0 {
            (live, 0)
        } else {
            let (mid, n) = self.reconcile_list(live, users.drop_last(), now);
            let (end, k) = self.reconcile(mid, users.last(), now);
            (end, n + k)
        }
    }

    /// An envelope arrives and its user is brought to the new cap at once.
    pub open spec fn accept_live(self, live: LiveView, env: EnvelopeView, now: i64) -> (
        Self,
        LiveView,
    ) {
        match self.granted(env, now) {
            Some(e) => {
                let gate = self.accept(env, now);
                (gate, gate.reconcile(live, e.external_ref, now).0)
            },
            None => (self, live),
        }
    }

    /// A batch of envelopes arrives, in order.
    pub open spec fn ingest_live(self, live: LiveView, envs: Seq<EnvelopeView>, now: i64) -> (
        Self,
        LiveView,
    )
        decreases envs.len(),
    {
        if envs.len() == 0 {
            (self, live)
        } else {
            let (gate, mid) = self.ingest_live(live, envs.drop_last(), now);
            gate.accept_live(mid, envs.last(), now)
        }
    }
}

/// The claim-time entitlement gate.
pub struct EntitlementGate {
    cache: EntitlementCache,
    policy: KeygatePolicy,
}

impl View for EntitlementGate {
    type V = GateView;

    closed spec fn view(&self) -> GateView {
        GateView { cache: self.cache@, policy: self.policy@ }
    }
}

/// Views of a list of envelopes.
pub open spec fn envelopes(s: Seq<SignedEnvelope>) -> Seq<EnvelopeView> {
    s.map_values(|e: SignedEnvelope| e@)
}

impl EntitlementGate {
    /// The cache is consistent.
    pub closed spec fn wf(&self) -> bool {
        self.cache.wf()
    }

    pub fn new(cache: EntitlementCache, policy: KeygatePolicy) -> (r: Self)
        requires
            cache.wf(),
        ensures
            r.wf(),
            r@ == (GateView { cache: cache@, policy: policy@ }),
    {
        EntitlementGate { cache, policy }
    }

    /// The cache, for storing it.
    pub fn cache(&self) -> (r: &EntitlementCache)
        ensures
            r@ == self@.cache,
    {
        &self.cache
    }

    fn missing(&self) -> (r: CapDecision)
        ensures
            r == self@.missing(),
    {
        if self.policy.require_entitlement {
            CapDecision::DenyAll
        } else {
            CapDecision::Allow
        }
    }

    /// Decide the cap of a user at `now`.
    pub fn cap_for(&self, external_ref: &str, now: i64) -> (r: CapDecision)
        requires
            self.wf(),
        ensures
            r == self@.cap_for(external_ref@, now),
    {
        let entry = match self.cache.get(external_ref) {
            Ok(Some(e)) => e,
            Ok(None) => return self.missing(),
            Err(_) => return CapDecision::Allow,
        };
        if now as i128 > entry.expires_at as i128 + self.policy.staleness_ceiling_secs as i128 {
            return self.missing();
        }
        if text::same(entry.status.as_str(), "suspended") {
            return CapDecision::DenyAll;
        }
        match entry.max_tunnels {
            Some(m) => CapDecision::Cap(m),
            None => CapDecision::Allow,
        }
    }

    /// The number of resources a user may keep; `None` for no limit.
    fn reconcile_cap(&self, external_ref: &str, now: i64) -> (r: Option<i64>)
        requires
            self.wf(),
        ensures
            r == self@.reconcile_cap(external_ref@, now),
    {
        match self.cap_for(external_ref, now) {
            CapDecision::Allow => None,
            CapDecision::Cap(m) => if m < 0 {
                Some(0)
            } else {
                Some(m)
            },
            CapDecision::DenyAll => Some(0),
        }
    }

    /// Bring one user's live state to its cap: what it owns over the cap is
    /// pruned, newest first, the routes of what went come down, and each
    /// session that served one is told. The answer is how much went.
    pub fn reconcile_user(
        &self,
        registry: &mut Registry,
        router: &mut Router,
        sent: &mut Vec<(SessionHandle, ControlFrame)>,
        external_ref: &str,
        now: i64,
    ) -> (r: usize)
        requires
            self.wf(),
            old(registry).wf(),
            old(router).wf(),
        ensures
            final(registry).wf(),
            final(router).wf(),
            ({
                let before = LiveView {
                    registry: old(registry)@,
                    router: old(router)@,
                    sent: cap::posts(old(sent)@),
                };
                let after = LiveView {
                    registry: final(registry)@,
                    router: final(router)@,
                    sent: cap::posts(final(sent)@),
                };
                (after, r as nat) == self@.reconcile(before, external_ref@, now)
            }),
    {
        let limit: i64 = match self.reconcile_cap(external_ref, now) {
            Some(c) => c,
            None => return 0,
        };
        let user_id: i64 = match registry.lookup_user_id(external_ref) {
            Ok(Some(id)) => id,
            Ok(None) => return 0,
            Err(_) => return 0,
        };
        cap::prune_live(
            registry,
            router,
            sent,
            user_id,
            limit,
            "plan downgrade reduced your limit",
        )
    }

    /// Bring every cached user to its cap. The answer is how much went.
    pub fn reconcile_all(
        &self,
        registry: &mut Registry,
        router: &mut Router,
        sent: &mut Vec<(SessionHandle, ControlFrame)>,
        now: i64,
    ) -> (r: u128)
        requires
            self.wf(),
            old(registry).wf(),
            old(router).wf(),
        ensures
            final(registry).wf(),
            final(router).wf(),
            ({
                let before = LiveView {
                    registry: old(registry)@,
                    router: old(router)@,
                    sent: cap::posts(old(sent)@),
                };
                let after = LiveView {
                    registry: final(registry)@,
                    router: final(router)@,
                    sent: cap::posts(final(sent)@),
                };
                (after, r as nat) == self@.reconcile_list(before, refs(self@.cache), now)
            }),
    {
        let ghost before = LiveView {
            registry: registry@,
            router: router@,
            sent: cap::posts(sent@),
        };
        let users = match self.cache.all_external_refs() {
            Ok(v) => v,
            Err(_) => Vec::new(),
        };
        let ghost uv = refs(self@.cache);
        let mut total: u128 = 0;
        let mut i: usize = 0;
        while i < users.len()
            invariant
                i <= users@.len(),
                uv == frames::names(users@),
                uv == refs(self@.cache),
                self.wf(),
                registry.wf(),
                router.wf(),
                total <= i * usize::MAX,
                (
                    LiveView { registry: registry@, router: router@, sent: cap::posts(sent@) },
                    total as nat,
                ) == self@.reconcile_list(before, uv.take(i as int), now),
            decreases users@.len() - i,
        {
            proof {
                assert(uv.take(i + 1).drop_last() =~= uv.take(i as int));
                assert(uv.take(i + 1).last() == users@[i as int]@);
                assert(i * usize::MAX + usize::MAX <= u128::MAX) by (nonlinear_arith)
                    requires
                        i <= usize::MAX,
                        usize::MAX <= u64::MAX,
                ;
                assert((i + 1) * usize::MAX == i * usize::MAX + usize::MAX) by (nonlinear_arith);
            }
            let n: usize = self.reconcile_user(registry, router, sent, users[i].as_str(), now);
            total = total + n as u128;
            i += 1;
        }
        assert(uv.take(i as int) =~= uv);
        total
    }

    /// The entitlement an envelope grants, if it is acceptable.
    fn granted(&self, env: &SignedEnvelope, now: i64) -> (r: Option<Entitlement>)
        ensures
            ent_opt(r) == self@.granted(env@, now),
    {
        if !text::same(env.key_id.as_str(), self.policy.key_id.as_str()) || !text::same(
            env.payload.key_id.as_str(),
            self.policy.key_id.as_str(),
        ) {
            return None;
        }
        if !text::same(env.payload.product.as_str(), self.policy.product.as_str()) {
            return None;
        }
        if !verify_envelope(env, self.policy.public_key_b64.as_str()) {
            return None;
        }
        let external_ref = match &env.payload.external_ref {
            Some(e) => e.clone(),
            None => return None,
        };
        let issued_at: i64 = match parse_unix_z(env.payload.issued_at.as_str()) {
            Some(t) => t,
            None => return None,
        };
        let expires_at: i64 = match parse_unix_z(env.payload.expires_at.as_str()) {
            Some(t) => t,
            None => return None,
        };
        let max_tunnels: Option<i64> = match find_feature(&env.payload.entitlements, "max_tunnels") {
            Some(i) => crypto::integer_of_json(env.payload.entitlements[i].1.as_str()),
            None => None,
        };
        Some(
            Entitlement {
                external_ref,
                customer_id: env.payload.customer_id,
                max_tunnels,
                status: env.payload.status.clone(),
                issued_at,
                expires_at,
                updated_at: now,
            },
        )
    }

    /// Verify and cache one envelope; the answer is whether it was accepted.
    pub fn ingest_one(&mut self, env: &SignedEnvelope, now: i64) -> (r: bool)
        requires
            old(self).wf(),
        ensures
            final(self).wf(),
            final(self)@ == old(self)@.accept(env@, now),
            r == old(self)@.granted(env@, now) is Some,
    {
        match self.granted(env, now) {
            Some(e) => self.cache.upsert(&e).is_ok(),
            None => false,
        }
    }

    /// Verify and cache a batch of envelopes; the answer is how many were
    /// accepted and how many rejected.
    pub fn ingest(&mut self, envelopes_in: &[SignedEnvelope], now: i64) -> (r: (usize, usize))
        requires
            old(self).wf(),
        ensures
            final(self).wf(),
            final(self)@ == old(self)@.ingest(envelopes(envelopes_in@), now),
            r.0 == old(self)@.accepted(envelopes(envelopes_in@), now),
            r.0 + r.1 == envelopes_in@.len(),
    {
        let ghost before = self@;
        let ghost ev = envelopes(envelopes_in@);
        let mut ok: usize = 0;
        let mut bad: usize = 0;
        let mut i: usize = 0;
        while i < envelopes_in.len()
            invariant
                i <= envelopes_in@.len(),
                ev == envelopes(envelopes_in@),
                self.wf(),
                self@ == before.ingest(ev.take(i as int), now),
                ok == before.accepted(ev.take(i as int), now),
                ok + bad == i,
            decreases envelopes_in@.len() - i,
        {
            proof {
                assert(ev.take(i + 1).drop_last() =~= ev.take(i as int));
                assert(ev.take(i + 1).last() == envelopes_in@[i as int]@);
            }
            if self.ingest_one(&envelopes_in[i], now) {
                ok += 1;
            } else {
                bad += 1;
            }
            i += 1;
        }
        assert(ev.take(i as int) =~= ev);
        (ok, bad)
    }

    /// Verify and cache a batch of envelopes, bringing each accepted user to
    /// its new cap at once. The answer is how many were accepted and rejected.
    pub fn ingest_live(
        &mut self,
        registry: &mut Registry,
        router: &mut Router,
        sent: &mut Vec<(SessionHandle, ControlFrame)>,
        envelopes_in: &[SignedEnvelope],
        now: i64,
    ) -> (r: (usize, usize))
        requires
            old(self).wf(),
            old(registry).wf(),
            old(router).wf(),
        ensures
            final(self).wf(),
            final(registry).wf(),
            final(router).wf(),
            ({
                let before = LiveView {
                    registry: old(registry)@,
                    router: old(router)@,
                    sent: cap::posts(old(sent)@),
                };
                let after = LiveView {
                    registry: final(registry)@,
                    router: final(router)@,
                    sent: cap::posts(final(sent)@),
                };
                (final(self)@, after) == old(self)@.ingest_live(
                    before,
                    envelopes(envelopes_in@),
                    now,
                )
            }),
            r.0 == old(self)@.accepted(envelopes(envelopes_in@), now),
            r.0 + r.1 == envelopes_in@.len(),
    {
        let ghost gate = self@;
        let ghost before = LiveView {
            registry: registry@,
            router: router@,
            sent: cap::posts(sent@),
        };
        let ghost ev = envelopes(envelopes_in@);
        let mut ok: usize = 0;
        let mut bad: usize = 0;
        let mut i: usize = 0;
        while i < envelopes_in.len()
            invariant
                i <= envelopes_in@.len(),
                ev == envelopes(envelopes_in@),
                self.wf(),
                registry.wf(),
                router.wf(),
                (
                    self@,
                    LiveView { registry: registry@, router: router@, sent: cap::posts(sent@) },
                ) == gate.ingest_live(before, ev.take(i as int), now),
                self@ == gate.ingest(ev.take(i as int), now),
                ok == gate.accepted(ev.take(i as int), now),
                ok + bad == i,
            decreases envelopes_in@.len() - i,
        {
            proof {
                assert(ev.take(i + 1).drop_last() =~= ev.take(i as int));
                assert(ev.take(i + 1).last() == envelopes_in@[i as int]@);
            }
            match self.granted(&envelopes_in[i], now) {
                Some(e) => {
                    let _ = self.cache.upsert(&e);
                    let _ = self.reconcile_user(
                        registry,
                        router,
                        sent,
                        e.external_ref.as_str(),
                        now,
                    );
                    ok += 1;
                },
                None => {
                    bad += 1;
                },
            }
            i += 1;
        }
        assert(ev.take(i as int) =~= ev);
        (ok, bad)
    }
}

/// Position of a feature.
fn find_feature(v: &Vec<(String, String)>, name: &str) -> (r: Option<usize>)
    ensures
        match r {
            Some(i) => i < v@.len() && feature(order::views(v@), name@) == Some(v@[i as int].1@),
            None => feature(order::views(v@), name@) is None,
        },
{
    let ghost s = order::views(v@);
    let mut i: usize = 0;
    assert(s.skip(0) =~= s);
    while i < v.len()
        invariant
            i <= v@.len(),
            s == order::views(v@),
            feature(s, name@) == feature(s.skip(i as int), name@),
        decreases v@.len() - i,
    {
        assert(s.skip(i as int)[0] == s[i as int]);
        if text::same(v[i].0.as_str(), name) {
            return Some(i);
        }
        assert(s.skip(i as int).drop_first() =~= s.skip(i + 1));
        i += 1;
    }
    None
}

/// A forged envelope changes nothing: one that is not signed under the pinned
/// key leaves everything as it was.
pub proof fn forgery_changes_nothing(gate: GateView, env: EnvelopeView, now: i64)
    requires
        !genuine(env, gate.policy.public_key_b64),
    ensures
        gate.accept(env, now) == gate,
        gate.granted(env, now) is None,
{
}

/// An accepted envelope decides its customer's cap until its expiry and the
/// ceiling have passed: a suspended customer is denied, one with a cap gets
/// that cap, and one without gets none.
pub proof fn accepted_envelope_decides(gate: GateView, env: EnvelopeView, now: i64, at: i64)
    requires
        distinct_refs(gate.cache),
        gate.granted(env, now) is Some,
        at <= gate.granted(env, now)->0.expires_at + gate.policy.ceiling,
    ensures
        gate.accept(env, now).cap_for(env.payload.external_ref->0, at) == (if env.payload.status
            == "suspended"@ {
            CapDecision::DenyAll
        } else {
            match gate.granted(env, now)->0.max_tunnels {
                Some(m) => CapDecision::Cap(m),
                None => CapDecision::Allow,
            }
        }),
{
    upsert_replaces(gate.cache, gate.granted(env, now)->0);
}

/// A customer whose envelopes stopped is treated as one without an entitlement
/// once the ceiling past the expiry is reached.
pub proof fn stale_entitlement_is_missing(gate: GateView, external_ref: Seq<char>, now: i64)
    requires
        cached(gate.cache, external_ref) is Some,
        now > cached(gate.cache, external_ref)->0.expires_at + gate.policy.ceiling,
    ensures
        gate.cap_for(external_ref, now) == gate.missing(),
{
}

/// An envelope of one customer does not change the decision for another.
pub proof fn envelopes_are_independent(
    gate: GateView,
    env: EnvelopeView,
    now: i64,
    other: Seq<char>,
    at: i64,
)
    requires
        distinct_refs(gate.cache),
        env.payload.external_ref != Some(other),
    ensures
        gate.accept(env, now).cap_for(other, at) == gate.cap_for(other, at),
{
    if gate.granted(env, now) is Some {
        upsert_replaces(gate.cache, gate.granted(env, now)->0);
    }
}

/// A downgrade takes effect at once: after a customer's envelope was accepted,
/// its account owns no more than the cap it now has.
pub proof fn downgrade_takes_effect_at_once(
    gate: GateView,
    live: LiveView,
    env: EnvelopeView,
    now: i64,
)
    requires
        distinct_refs(gate.cache),
        live.registry.wf(),
        gate.granted(env, now) is Some,
        live.registry.lookup(env.payload.external_ref->0) is Some,
    ensures
        ({
            let (after, end) = gate.accept_live(live, env, now);
            let user = env.payload.external_ref->0;
            match after.reconcile_cap(user, now) {
                Some(m) => end.registry.owned_count(live.registry.lookup(user)->0) <= m,
                None => end == live,
            }
        }),
{
    let user = env.payload.external_ref->0;
    let after = gate.accept(env, now);
    match after.reconcile_cap(user, now) {
        Some(m) => {
            cap::pruned_account_fits(
                live,
                live.registry.lookup(user)->0,
                m,
                "plan downgrade reduced your limit"@,
            );
        },
        None => {},
    }
}

/// What an account may have: its cached entitlement decides until the ceiling
/// after it expired. A suspended account gets nothing, one with a limit that
/// many tunnels, one without any number. Without such an entitlement everything
/// is allowed, or nothing if one is required.
pub proof fn entitlement_decides(gate: GateView, external_ref: Seq<char>, now: i64, i: int)
    requires
        distinct_refs(gate.cache),
        0 <= i <= gate.cache.len(),
        i < gate.cache.len() ==> gate.cache[i].external_ref == external_ref,
        i == gate.cache.len() ==> forall|j: int|
            0 <= j < gate.cache.len() ==> (#[trigger] gate.cache[j]).external_ref != external_ref,
    ensures
        ({
            let e = gate.cache[i];
            let d = gate.cap_for(external_ref, now);
            if i < gate.cache.len() && now - e.expires_at <= gate.policy.ceiling {
                &&& e.status == "suspended"@ ==> d == CapDecision::DenyAll
                &&& e.status != "suspended"@ && e.max_tunnels is None ==> d == CapDecision::Allow
                &&& e.status != "suspended"@ ==> (e.max_tunnels matches Some(m) ==> d
                    == CapDecision::Cap(m))
            } else {
                d == (if gate.policy.required {
                    CapDecision::DenyAll
                } else {
                    CapDecision::Allow
                })
            }
        }),
{
    if i < gate.cache.len() {
        assert(is_ent(gate.cache, external_ref, i));
        lemma_cached(gate.cache, external_ref, i);
    } else if exists|j: int| is_ent(gate.cache, external_ref, j) {
        let j = choose|j: int| is_ent(gate.cache, external_ref, j);
        assert(gate.cache[j].external_ref == external_ref);
    }
}

/// An envelope counts exactly if it is signed by the pinned key, names that key
/// inside and out, is for this product, names an account and has readable
/// times. Then the account has what the payload says.
pub proof fn envelope_counts_if_it_is_ours(gate: GateView, env: EnvelopeView, now: i64)
    ensures
        gate.granted(env, now) is Some <==> env.key_id == gate.policy.key_id && env.payload.key_id
            == gate.policy.key_id && env.payload.product == gate.policy.product && genuine(
            env,
            gate.policy.public_key_b64,
        ) && env.payload.external_ref is Some && timestamp::unix_z(env.payload.issued_at) is Some
            && timestamp::unix_z(env.payload.expires_at) is Some,
        gate.granted(env, now) matches Some(e) ==> Some(e.external_ref) == env.payload.external_ref
            && e.customer_id == env.payload.customer_id && e.status == env.payload.status
            && e.issued_at == timestamp::unix_z(env.payload.issued_at)->0 as i64 && e.expires_at
            == timestamp::unix_z(env.payload.expires_at)->0 as i64 && e.updated_at == now && match feature(
            env.payload.entitlements,
            "max_tunnels"@,
        ) {
            Some(v) => e.max_tunnels == crypto::json_integer(v),
            None => e.max_tunnels is None,
        },
{
}

/// The value of a feature is that of its first entry.
pub proof fn first_feature_counts(s: Seq<(Seq<char>, Seq<char>)>, name: Seq<char>, i: int)
    requires
        0 <= i <= s.len(),
        forall|j: int| 0 <= j < i ==> (#[trigger] s[j]).0 != name,
        i < s.len() ==> s[i].0 == name,
    ensures
        feature(s, name) == (if i < s.len() {
            Some(s[i].1)
        } else {
            None
        }),
    decreases i,
{
    if i > 0 {
        let rest = s.drop_first();
        assert(s[0].0 != name);
        assert forall|j: int| 0 <= j < i - 1 implies (#[trigger] rest[j]).0 != name by {
            assert(s[j + 1].0 != name);
        }
        first_feature_counts(rest, name, i - 1);
    }
}

/// What an account is pruned to is what it may claim: nothing is pruned where
/// everything is allowed, a cap never goes below zero, and where nothing is
/// allowed nothing is left.
pub proof fn accounts_are_pruned_to_their_cap(gate: GateView, external_ref: Seq<char>, now: i64)
    ensures
        match gate.cap_for(external_ref, now) {
            CapDecision::Allow => gate.reconcile_cap(external_ref, now) is None,
            CapDecision::DenyAll => gate.reconcile_cap(external_ref, now) == Some(0i64),
            CapDecision::Cap(m) => gate.reconcile_cap(external_ref, now) == Some(
                if m >= 0 {
                    m
                } else {
                    0i64
                },
            ),
        },
{
}

/// Reconciling an account prunes that account to its cap, and does nothing where
/// there is no cap or no such account.
pub proof fn reconciling_prunes_one_account(
    gate: GateView,
    live: LiveView,
    external_ref: Seq<char>,
    now: i64,
)
    ensures
        ({
            let (after, n) = gate.reconcile(live, external_ref, now);
            &&& gate.reconcile_cap(external_ref, now) is None || live.registry.lookup(external_ref)
                is None ==> after == live && n == 0
            &&& gate.reconcile_cap(external_ref, now) matches Some(m) ==> (live.registry.lookup(
                external_ref,
            ) matches Some(id) ==> (after, n) == live.prune(
                id,
                m,
                "plan downgrade reduced your limit"@,
            ))
        }),
{
}

/// Envelopes are taken one after the other, and as many are accepted as count;
/// which of them count does not depend on the others.
pub proof fn envelopes_are_taken_in_turn(gate: GateView, envs: Seq<EnvelopeView>, now: i64)
    ensures
        gate.ingest(envs, now).policy == gate.policy,
        gate.accepted(envs, now) == envs.filter(
            |e: EnvelopeView| gate.granted(e, now) is Some,
        ).len(),
        envs.len() > 0 ==> gate.ingest(envs, now) == gate.ingest(envs.drop_last(), now).accept(
            envs.last(),
            now,
        ),
        gate.ingest(Seq::empty(), now) == gate,
    decreases envs.len(),
{
    reveal(Seq::filter);
    if envs.len() > 0 {
        envelopes_are_taken_in_turn(gate, envs.drop_last(), now);
        let mid = gate.ingest(envs.drop_last(), now);
        assert(mid.granted(envs.last(), now) == gate.granted(envs.last(), now));
    }
}

/// Taking envelopes into a running relay caches the same as taking them alone.
pub proof fn live_intake_caches_the_same(
    gate: GateView,
    live: LiveView,
    envs: Seq<EnvelopeView>,
    now: i64,
)
    ensures
        gate.ingest_live(live, envs, now).0 == gate.ingest(envs, now),
    decreases envs.len(),
{
    if envs.len() > 0 {
        live_intake_caches_the_same(gate, live, envs.drop_last(), now);
    }
}

/// The signature covers every field of the payload: each of them stands, in its
/// JSON form, in what is signed.
pub proof fn signature_covers_every_field(p: PayloadView)
    ensures
        text::occurs(
            canonical(p),
            "{\"customer_id\":"@ + text::decimal_int(p.customer_id as int),
        ),
        text::occurs(canonical(p), ",\"expires_at\":"@ + crypto::json_quote(p.expires_at)),
        text::occurs(canonical(p), ",\"issued_at\":"@ + crypto::json_quote(p.issued_at)),
        text::occurs(canonical(p), ",\"key_id\":"@ + crypto::json_quote(p.key_id)),
        text::occurs(canonical(p), ",\"product\":"@ + crypto::json_quote(p.product)),
        text::occurs(canonical(p), ",\"status\":"@ + crypto::json_quote(p.status)),
        p.external_ref matches Some(r) ==> text::occurs(
            canonical(p),
            ",\"external_ref\":"@ + crypto::json_quote(r),
        ),
        p.external_ref is None ==> text::occurs(canonical(p), ",\"external_ref\":null"@),
        text::occurs(
            canonical(p),
            ",\"entitlements\":{"@ + json_members(p.entitlements.sort_by(rows::pair_order()))
                + "}"@,
        ),
{
    let ext = match p.external_ref {
        Some(r) => crypto::json_quote(r),
        None => "null"@,
    };
    let number = text::decimal_int(p.customer_id as int);
    let members = json_members(p.entitlements.sort_by(rows::pair_order()));
    let expires = crypto::json_quote(p.expires_at);
    let issued = crypto::json_quote(p.issued_at);
    let key = crypto::json_quote(p.key_id);
    let product = crypto::json_quote(p.product);
    let status = crypto::json_quote(p.status);
    lemma_literals();
    let c = canonical(p);
    let a1 = "{\"customer_id\":"@ + number;
    let p2 = ",\"entitlements\":{"@ + members + "}"@;
    let a2 = a1 + ",\"entitlements\":{"@ + members + "}"@;
    let a3 = a2 + ",\"expires_at\":"@ + expires;
    let a4 = a3 + ",\"external_ref\":"@ + ext;
    let a5 = a4 + ",\"issued_at\":"@ + issued;
    let a6 = a5 + ",\"key_id\":"@ + key;
    let a7 = a6 + ",\"product\":"@ + product;
    lemma_assoc(a1 + ",\"entitlements\":{"@ + members, "}"@, ",\"expires_at\":"@);
    assert(c == a7 + ",\"status\":"@ + status + "}"@);
    let t8 = "}"@;
    lemma_piece(c, a7, ",\"status\":"@, status, t8);
    let t7 = ",\"status\":"@ + status + t8;
    lemma_piece(c, a6, ",\"product\":"@, product, t7);
    let t6 = ",\"product\":"@ + product + t7;
    lemma_piece(c, a5, ",\"key_id\":"@, key, t6);
    let t5 = ",\"key_id\":"@ + key + t6;
    lemma_piece(c, a4, ",\"issued_at\":"@, issued, t5);
    let t4 = ",\"issued_at\":"@ + issued + t5;
    lemma_piece(c, a3, ",\"external_ref\":"@, ext, t4);
    let t3 = ",\"external_ref\":"@ + ext + t4;
    lemma_piece(c, a2, ",\"expires_at\":"@, expires, t3);
    let t2 = ",\"expires_at\":"@ + expires + t3;
    lemma_assoc(a1, ",\"entitlements\":{"@, members);
    lemma_assoc(a1, ",\"entitlements\":{"@ + members, "}"@);
    assert(a2 == a1 + p2);
    lemma_within(c, a1, p2, t2);
    lemma_assoc(a1, p2, t2);
    lemma_within(c, Seq::empty(), a1, p2 + t2);
}

proof fn lemma_literals()
    ensures
        "},\"expires_at\":"@ == "}"@ + ",\"expires_at\":"@,
        ",\"external_ref\":null"@ == ",\"external_ref\":"@ + "null"@,
{
    reveal_strlit("}");
    reveal_strlit("},\"expires_at\":");
    reveal_strlit(",\"expires_at\":");
    reveal_strlit(",\"external_ref\":");
    reveal_strlit(",\"external_ref\":null");
    reveal_strlit("null");
    assert("},\"expires_at\":"@ =~= "}"@ + ",\"expires_at\":"@);
    assert(",\"external_ref\":null"@ =~= ",\"external_ref\":"@ + "null"@);
}

proof fn lemma_assoc(a: Seq<char>, b: Seq<char>, c: Seq<char>)
    ensures
        a + b + c == a + (b + c),
{
    assert(a + b + c =~= a + (b + c));
}

proof fn lemma_piece(c: Seq<char>, a: Seq<char>, name: Seq<char>, v: Seq<char>, rest: Seq<char>)
    requires
        c == a + name + v + rest,
    ensures
        text::occurs(c, name + v),
        c == a + (name + v + rest),
{
    assert(c =~= a + (name + v) + rest);
    assert(c =~= a + (name + v + rest));
    text::occurrences_are_found(a, name + v, rest);
}

proof fn lemma_within(c: Seq<char>, a: Seq<char>, m: Seq<char>, b: Seq<char>)
    requires
        c =~= a + m + b,
    ensures
        text::occurs(c, m),
{
    text::occurrences_are_found(a, m, b);
}

/// The order in which entitlements are listed does not matter to what is
/// signed.
pub proof fn listing_order_is_not_signed(p: PayloadView, q: PayloadView)
    requires
        p.entitlements.to_multiset() == q.entitlements.to_multiset(),
        q == (PayloadView { entitlements: q.entitlements, ..p }),
    ensures
        canonical(p) == canonical(q),
{
    let le = rows::pair_order();
    rows::lemma_pair_order_total();
    p.entitlements.lemma_sort_by_ensures(le);
    q.entitlements.lemma_sort_by_ensures(le);
    vstd::seq_lib::lemma_sorted_unique(
        p.entitlements.sort_by(le),
        q.entitlements.sort_by(le),
        le,
    );
}

/// Members of an object are separated by commas, each its quoted name, a colon
/// and its value.
pub proof fn members_are_separated(s: Seq<(Seq<char>, Seq<char>)>, m: (Seq<char>, Seq<char>))
    ensures
        json_members(seq![m]) == crypto::json_quote(m.0) + ":"@ + m.1,
        s.len() > 0 ==> json_members(s.push(m)) == json_members(s) + ","@ + json_members(seq![m]),
{
    assert(s.push(m).drop_last() =~= s);
    assert(json_members(s.push(m)) == json_members(s) + ","@ + (crypto::json_quote(m.0) + ":"@
        + m.1) || s.len() == 0);
}

/// An envelope is genuine exactly if the pinned key verifies its signature over
/// the signed form of its payload, both decoding to their proper lengths.
pub proof fn genuine_needs_a_valid_signature(env: EnvelopeView, key: Seq<char>)
    ensures
        genuine(env, key) <==> (crypto::base64_bytes(key) matches Some(k) && k.len() == 32 && (
        crypto::base64_bytes(env.signature) matches Some(s) && s.len() == 64
            && crypto::ed25519_valid(k, vstd::utf8::encode_utf8(canonical(env.payload)), s))),
{
}

} // verus!
