//! Licence keys: validation results, their cache, and the capacity gate.
//!
//! A daemon may present a licence key as its token. The key is validated over
//! HTTP at most once per cache lifetime; a granted key is honoured for a
//! bounded time when the licence service cannot be reached. The relay account
//! of a key is its customer, so all keys of one customer share one pool of
//! tunnels, and the pool's cap is the largest that any of its live keys
//! grants.
//!
//! Calls to the licence service are made by the program around this module:
//! each operation that needs one is a step that says what to ask, and a second
//! step that takes the answer.
use vstd::prelude::*;

use crate::order;
use crate::proto::frames::ControlFrame;
use crate::relay::auth;
use crate::relay::auth::AuthedUser;
use crate::relay::cap;
use crate::relay::cap::LiveView;
use crate::relay::crypto;
use crate::relay::ledger::{DbFault, RegistryView, WhoView};
use crate::relay::registry::Registry;
use crate::relay::router::{Router, SessionHandle};
use crate::relay::rows;
use crate::text;

pub use crate::relay::cap::CapDecision;
pub use crate::relay::clock::now_unix;

verus! {

/// How long a granted key backs its customer's pool against pruning, past its
/// last validation, in seconds.
pub const CAP_PRUNE_GRACE_SECS: i64 = 2_592_000;

/// The digest under which a key is cached.
pub open spec fn key_digest(key: Seq<char>) -> Seq<u8> {
    crypto::sha256(vstd::utf8::encode_utf8(key))
}

fn hash_key(key: &str) -> (r: Vec<u8>)
    ensures
        r@ == key_digest(key@),
{
    crypto::sha256_of(key.as_bytes())
}

/// Policy of a license gate.
#[derive(Clone)]
pub struct PolarPolicy {
    pub organization_id: String,
    /// Re-validate a cached key at most this often, in seconds.
    pub cache_ttl_secs: i64,
    /// Honour a cached grant this long past its last validation when the
    /// licence service cannot be reached, in seconds.
    pub staleness_secs: i64,
    /// A granted key keeps backing its customer's pool against pruning this
    /// long past its last validation, in seconds.
    pub cap_prune_grace_secs: i64,
    /// Whether a claim needs a device activation.
    pub activate_on_claim: bool,
    /// Benefit and the number of tunnels it grants.
    pub benefits: Vec<(String, i64)>,
}

/// View of a [`PolarPolicy`].
#[verifier::ext_equal]
pub struct PolicyView {
    pub organization_id: Seq<char>,
    pub ttl: i64,
    pub staleness: i64,
    pub grace: i64,
    pub activate: bool,
    pub benefits: Seq<(Seq<char>, i64)>,
}

/// Views of a list of benefits.
pub open spec fn benefit_views(v: Seq<(String, i64)>) -> Seq<(Seq<char>, i64)> {
    v.map_values(|b: (String, i64)| (b.0@, b.1))
}

impl View for PolarPolicy {
    type V = PolicyView;

    open spec fn view(&self) -> PolicyView {
        PolicyView {
            organization_id: self.organization_id@,
            ttl: self.cache_ttl_secs,
            staleness: self.staleness_secs,
            grace: self.cap_prune_grace_secs,
            activate: self.activate_on_claim,
            benefits: benefit_views(self.benefits@),
        }
    }
}

/// The number of tunnels of a benefit, if it is mapped.
pub open spec fn benefit_cap(s: Seq<(Seq<char>, i64)>, id: Seq<char>) -> Option<i64>
    decreases s.len(),
{
    if s.len() == 0 {
        None
    } else if s[0].0 == id {
        Some(s[0].1)
    } else {
        benefit_cap(s.drop_first(), id)
    }
}

fn find_benefit(v: &Vec<(String, i64)>, id: &str) -> (r: Option<i64>)
    ensures
        r == benefit_cap(benefit_views(v@), id@),
{
    let ghost s = benefit_views(v@);
    let mut i: usize = 0;
    assert(s.skip(0) =~= s);
    while i < v.len()
        invariant
            i <= v@.len(),
            s == benefit_views(v@),
            benefit_cap(s, id@) == benefit_cap(s.skip(i as int), id@),
        decreases v@.len() - i,
    {
        assert(s.skip(i as int)[0] == s[i as int]);
        if text::same(v[i].0.as_str(), id) {
            return Some(v[i].1);
        }
        assert(s.skip(i as int).drop_first() =~= s.skip(i + 1));
        i += 1;
    }
    None
}

/// What validating a key concluded.
#[derive(Debug)]
pub enum ValidateOutcome {
    /// The key is granted.
    Granted { customer_id: String, benefit_id: String },
    /// Definitively not usable: invalid, revoked or disabled.
    NotLicensed,
    /// Indeterminate: the service could not be reached or is overloaded.
    Unavailable(String),
}

/// View of a [`ValidateOutcome`].
pub enum ValidateView {
    Granted { customer_id: Seq<char>, benefit_id: Seq<char> },
    NotLicensed,
    Unavailable(Seq<char>),
}

impl View for ValidateOutcome {
    type V = ValidateView;

    open spec fn view(&self) -> ValidateView {
        match self {
            ValidateOutcome::Granted { customer_id, benefit_id } => ValidateView::Granted {
                customer_id: customer_id@,
                benefit_id: benefit_id@,
            },
            ValidateOutcome::NotLicensed => ValidateView::NotLicensed,
            ValidateOutcome::Unavailable(why) => ValidateView::Unavailable(why@),
        }
    }
}

/// What activating a key concluded.
#[derive(Debug)]
pub enum ActivateOutcome {
    Activated { activation_id: String },
    /// The key's activations are used up elsewhere.
    LimitReached,
    Unavailable(String),
}

/// View of an [`ActivateOutcome`].
pub enum ActivateView {
    Activated { activation_id: Seq<char> },
    LimitReached,
    Unavailable(Seq<char>),
}

impl View for ActivateOutcome {
    type V = ActivateView;

    open spec fn view(&self) -> ActivateView {
        match self {
            ActivateOutcome::Activated { activation_id } => ActivateView::Activated {
                activation_id: activation_id@,
            },
            ActivateOutcome::LimitReached => ActivateView::LimitReached,
            ActivateOutcome::Unavailable(why) => ActivateView::Unavailable(why@),
        }
    }
}

/// The part of a validation reply that counts.
#[derive(Debug)]
pub struct ValidateResp {
    pub customer_id: String,
    pub benefit_id: String,
    pub status: String,
}

/// A reply of the licence service: the HTTP status with its text, and the body
/// read as `T` or why it could not be read. `Err` is a failed round trip.
pub type Reply<T> = Result<(u16, String, Result<T, String>), String>;

/// A status of success.
pub open spec fn success(status: u16) -> bool {
    200 <= status <= 299
}

/// What a validation reply means: success is read from the body, overload and
/// server errors are indeterminate, every other status is a definitive no.
pub open spec fn validate_meaning(reply: Reply<ValidateResp>) -> ValidateView {
    match reply {
        Err(e) => ValidateView::Unavailable(e@),
        Ok((status, shown, body)) => if success(status) {
            match body {
                Ok(v) => if v.status@ == "granted"@ {
                    ValidateView::Granted { customer_id: v.customer_id@, benefit_id: v.benefit_id@ }
                } else {
                    ValidateView::NotLicensed
                },
                Err(e) => ValidateView::Unavailable("bad validate body: "@ + e@),
            }
        } else if status == 429 || 500 <= status <= 599 {
            ValidateView::Unavailable("polar validate: "@ + shown@)
        } else {
            ValidateView::NotLicensed
        },
    }
}

/// What a validation reply means.
pub fn validate_outcome(reply: Reply<ValidateResp>) -> (r: ValidateOutcome)
    ensures
        r@ == validate_meaning(reply),
{
    match reply {
        Err(e) => ValidateOutcome::Unavailable(e),
        Ok((status, shown, body)) => {
            if status >= 200 && status <= 299 {
                match body {
                    Ok(v) => if text::same(v.status.as_str(), "granted") {
                        ValidateOutcome::Granted {
                            customer_id: v.customer_id,
                            benefit_id: v.benefit_id,
                        }
                    } else {
                        ValidateOutcome::NotLicensed
                    },
                    Err(e) => ValidateOutcome::Unavailable(
                        text::join2("bad validate body: ", e.as_str()),
                    ),
                }
            } else if status == 429 || (status >= 500 && status <= 599) {
                ValidateOutcome::Unavailable(text::join2("polar validate: ", shown.as_str()))
            } else {
                ValidateOutcome::NotLicensed
            }
        },
    }
}

/// What an activation reply means; the body of a success is the activation id.
pub open spec fn activate_meaning(reply: Reply<String>) -> ActivateView {
    match reply {
        Err(e) => ActivateView::Unavailable(e@),
        Ok((status, shown, body)) => if success(status) {
            match body {
                Ok(id) => ActivateView::Activated { activation_id: id@ },
                Err(e) => ActivateView::Unavailable("bad activate body: "@ + e@),
            }
        } else if status == 403 {
            ActivateView::LimitReached
        } else {
            ActivateView::Unavailable("polar activate: "@ + shown@)
        },
    }
}

/// What an activation reply means.
pub fn activate_outcome(reply: Reply<String>) -> (r: ActivateOutcome)
    ensures
        r@ == activate_meaning(reply),
{
    match reply {
        Err(e) => ActivateOutcome::Unavailable(e),
        Ok((status, shown, body)) => {
            if status >= 200 && status <= 299 {
                match body {
                    Ok(id) => ActivateOutcome::Activated { activation_id: id },
                    Err(e) => ActivateOutcome::Unavailable(
                        text::join2("bad activate body: ", e.as_str()),
                    ),
                }
            } else if status == 403 {
                ActivateOutcome::LimitReached
            } else {
                ActivateOutcome::Unavailable(text::join2("polar activate: ", shown.as_str()))
            }
        },
    }
}

/// What a deactivation reply means: done, or why not.
pub fn deactivate_outcome(reply: Result<(u16, String), String>) -> (r: Result<(), String>)
    ensures
        match reply {
            Err(e) => r == Err::<(), String>(e),
            Ok((status, shown)) => if success(status) {
                r is Ok
            } else {
                r is Err && r->Err_0@ == "polar deactivate: "@ + shown@
            },
        },
{
    match reply {
        Err(e) => Err(e),
        Ok((status, shown)) => if status >= 200 && status <= 299 {
            Ok(())
        } else {
            Err(text::join2("polar deactivate: ", shown.as_str()))
        },
    }
}

/// The request body that validates a key.
pub fn validate_body(key: &str, organization_id: &str) -> (r: String)
    ensures
        r@ == "{\"key\":"@ + crypto::json_quote(key@) + ",\"organization_id\":"@
            + crypto::json_quote(organization_id@) + "}"@,
{
    let mut s = "{\"key\":".to_owned();
    s.append(crypto::quote_json(key).as_str());
    s.append(",\"organization_id\":");
    s.append(crypto::quote_json(organization_id).as_str());
    s.append("}");
    s
}

/// The request body that activates a key.
pub fn activate_body(key: &str, organization_id: &str, label: &str) -> (r: String)
    ensures
        r@ == "{\"key\":"@ + crypto::json_quote(key@) + ",\"label\":"@ + crypto::json_quote(label@)
            + ",\"organization_id\":"@ + crypto::json_quote(organization_id@) + "}"@,
{
    let mut s = "{\"key\":".to_owned();
    s.append(crypto::quote_json(key).as_str());
    s.append(",\"label\":");
    s.append(crypto::quote_json(label).as_str());
    s.append(",\"organization_id\":");
    s.append(crypto::quote_json(organization_id).as_str());
    s.append("}");
    s
}

/// The request body that gives up an activation.
pub fn deactivate_body(key: &str, organization_id: &str, activation_id: &str) -> (r: String)
    ensures
        r@ == "{\"activation_id\":"@ + crypto::json_quote(activation_id@) + ",\"key\":"@
            + crypto::json_quote(key@) + ",\"organization_id\":"@ + crypto::json_quote(
            organization_id@,
        ) + "}"@,
{
    let mut s = "{\"activation_id\":".to_owned();
    s.append(crypto::quote_json(activation_id).as_str());
    s.append(",\"key\":");
    s.append(crypto::quote_json(key).as_str());
    s.append(",\"organization_id\":");
    s.append(crypto::quote_json(organization_id).as_str());
    s.append("}");
    s
}

/// The address of an endpoint: slashes at the end of the base do not count.
pub fn endpoint_url(api_base: &str, path: &str) -> (r: String)
    ensures
        r@ == text::trimmed_end(api_base@, '/') + path@,
{
    let base = text::trim_end(api_base, '/');
    text::join2(base.as_str(), path)
}

/// One cached validation result. A key is kept only as its digest.
#[derive(Debug, Clone)]
pub struct LicenseRow {
    pub key_hash: Vec<u8>,
    pub customer_id: String,
    pub benefit_id: String,
    /// Tunnels of the benefit at validation time; `None` for an unmapped one.
    pub max_tunnels: Option<i64>,
    /// `granted` or `not_licensed`.
    pub status: String,
    /// Our activation of this key, once there is one.
    pub activation_id: Option<String>,
    pub validated_at: i64,
}

/// View of a [`LicenseRow`].
#[verifier::ext_equal]
pub struct LicenseView {
    pub key_hash: Seq<u8>,
    pub customer_id: Seq<char>,
    pub benefit_id: Seq<char>,
    pub max_tunnels: Option<i64>,
    pub status: Seq<char>,
    pub activation_id: Option<Seq<char>>,
    pub validated_at: i64,
}

impl View for LicenseRow {
    type V = LicenseView;

    open spec fn view(&self) -> LicenseView {
        LicenseView {
            key_hash: self.key_hash@,
            customer_id: self.customer_id@,
            benefit_id: self.benefit_id@,
            max_tunnels: self.max_tunnels,
            status: self.status@,
            activation_id: rows::opt_view(self.activation_id),
            validated_at: self.validated_at,
        }
    }
}

impl LicenseView {
    /// A grant of a mapped benefit that was validated within `window` seconds.
    pub open spec fn backs(self, now: i64, window: i64) -> bool {
        self.status == "granted"@ && self.max_tunnels is Some && now <= self.validated_at + window
    }
}

/// View of an optional row.
pub open spec fn row_opt(o: Option<LicenseRow>) -> Option<LicenseView> {
    match o {
        Some(r) => Some(r@),
        None => None,
    }
}

fn dup_opt(o: &Option<String>) -> (r: Option<String>)
    ensures
        rows::opt_view(r) == rows::opt_view(*o),
{
    match o {
        Some(s) => Some(s.clone()),
        None => None,
    }
}

/// A copy of a row.
fn dup_row(r: &LicenseRow) -> (c: LicenseRow)
    ensures
        c@ == r@,
{
    LicenseRow {
        key_hash: rows::dup_bytes(&r.key_hash),
        customer_id: r.customer_id.clone(),
        benefit_id: r.benefit_id.clone(),
        max_tunnels: r.max_tunnels,
        status: r.status.clone(),
        activation_id: dup_opt(&r.activation_id),
        validated_at: r.validated_at,
    }
}

/// Row `i` is the result of this key.
pub open spec fn is_key(s: Seq<LicenseView>, hash: Seq<u8>, i: int) -> bool {
    0 <= i < s.len() && s[i].key_hash == hash
}

/// No key has two rows.
pub open spec fn distinct_keys(s: Seq<LicenseView>) -> bool {
    forall|i: int, j: int|
        0 <= i < j < s.len() ==> (#[trigger] s[i]).key_hash != (#[trigger] s[j]).key_hash
}

/// The cached result of a key.
pub open spec fn cached(s: Seq<LicenseView>, hash: Seq<u8>) -> Option<LicenseView> {
    if exists|i: int| is_key(s, hash, i) {
        Some(s[choose|i: int| is_key(s, hash, i)])
    } else {
        None
    }
}

/// A new result of a key over its old one: a stored activation is kept unless a
/// new one comes with it.
pub open spec fn merged(old_row: LicenseView, new_row: LicenseView) -> LicenseView {
    LicenseView {
        activation_id: if new_row.activation_id is Some {
            new_row.activation_id
        } else {
            old_row.activation_id
        },
        ..new_row
    }
}

/// The cache after storing a result.
pub open spec fn upserted(s: Seq<LicenseView>, r: LicenseView) -> Seq<LicenseView> {
    if exists|i: int| is_key(s, r.key_hash, i) {
        let i = choose|i: int| is_key(s, r.key_hash, i);
        s.update(i, merged(s[i], r))
    } else {
        s.push(r)
    }
}

/// The cache after setting the activation of a key.
pub open spec fn with_activation(s: Seq<LicenseView>, hash: Seq<u8>, id: Option<Seq<char>>) -> Seq<
    LicenseView,
> {
    s.map_values(
        |r: LicenseView|
            if r.key_hash == hash {
                LicenseView { activation_id: id, ..r }
            } else {
                r
            },
    )
}

/// Some key of a customer is cached.
pub open spec fn knows_customer(s: Seq<LicenseView>, customer: Seq<char>) -> bool {
    exists|i: int| 0 <= i < s.len() && (#[trigger] s[i]).customer_id == customer
}

/// The larger of two optional caps.
pub open spec fn larger(a: Option<i64>, b: i64) -> Option<i64> {
    match a {
        None => Some(b),
        Some(x) => if b > x {
            Some(b)
        } else {
            a
        },
    }
}

/// The pooled cap of a customer: the largest that any of its keys backs within
/// `window` seconds; `None` where no key does.
pub open spec fn pool(s: Seq<LicenseView>, customer: Seq<char>, now: i64, window: i64) -> Option<
    i64,
>
    decreases s.len(),
{
    if s.len() == 0 {
        None
    } else {
        let rest = pool(s.drop_last(), customer, now, window);
        let r = s.last();
        if r.customer_id == customer && r.backs(now, window) {
            larger(rest, r.max_tunnels->0)
        } else {
            rest
        }
    }
}

/// The row of a key is the only one.
pub proof fn lemma_key(s: Seq<LicenseView>, hash: Seq<u8>, i: int)
    requires
        distinct_keys(s),
        is_key(s, hash, i),
    ensures
        cached(s, hash) == Some(s[i]),
        (choose|j: int| is_key(s, hash, j)) == i,
{
    let j = choose|j: int| is_key(s, hash, j);
    if i < j {
        assert(s[i].key_hash != s[j].key_hash);
    } else if j < i {
        assert(s[j].key_hash != s[i].key_hash);
    }
}

/// Storing a result keeps keys distinct, makes it the key's one, and touches
/// no other key.
pub proof fn upsert_replaces(s: Seq<LicenseView>, r: LicenseView)
    requires
        distinct_keys(s),
    ensures
        distinct_keys(upserted(s, r)),
        cached(upserted(s, r), r.key_hash) == Some(
            match cached(s, r.key_hash) {
                Some(o) => merged(o, r),
                None => r,
            },
        ),
        forall|h: Seq<u8>|
            h != r.key_hash ==> #[trigger] cached(upserted(s, r), h) == cached(s, h),
{
    let t = upserted(s, r);
    let k = if exists|i: int| is_key(s, r.key_hash, i) {
        choose|i: int| is_key(s, r.key_hash, i)
    } else {
        s.len() as int
    };
    assert forall|i: int, j: int| 0 <= i < j < t.len() implies (#[trigger] t[i]).key_hash != (
    #[trigger] t[j]).key_hash by {
        if k < s.len() {
            assert(s[i].key_hash != s[j].key_hash);
        } else {
            assert(t[i] == s[i]);
            if j < k {
                assert(s[i].key_hash != s[j].key_hash);
            } else {
                assert(!is_key(s, r.key_hash, i));
            }
        }
    }
    assert(is_key(t, r.key_hash, k));
    lemma_key(t, r.key_hash, k);
    if k < s.len() {
        lemma_key(s, r.key_hash, k);
    }
    assert forall|h: Seq<u8>| h != r.key_hash implies #[trigger] cached(t, h) == cached(s, h) by {
        if exists|i: int| is_key(s, h, i) {
            let i = choose|i: int| is_key(s, h, i);
            lemma_key(s, h, i);
            assert(is_key(t, h, i));
            lemma_key(t, h, i);
        } else if exists|i: int| is_key(t, h, i) {
            let i = choose|i: int| is_key(t, h, i);
            assert(i != k);
            assert(is_key(s, h, i));
        }
    }
}

/// Setting an activation keeps keys distinct.
proof fn lemma_activation(s: Seq<LicenseView>, hash: Seq<u8>, id: Option<Seq<char>>)
    requires
        distinct_keys(s),
    ensures
        distinct_keys(with_activation(s, hash, id)),
        cached(with_activation(s, hash, id), hash) == (match cached(s, hash) {
            Some(r) => Some(LicenseView { activation_id: id, ..r }),
            None => None,
        }),
{
    let t = with_activation(s, hash, id);
    assert forall|i: int, j: int| 0 <= i < j < t.len() implies (#[trigger] t[i]).key_hash != (
    #[trigger] t[j]).key_hash by {
        assert(s[i].key_hash != s[j].key_hash);
    }
    if exists|i: int| is_key(s, hash, i) {
        let i = choose|i: int| is_key(s, hash, i);
        lemma_key(s, hash, i);
        assert(is_key(t, hash, i));
        lemma_key(t, hash, i);
    } else if exists|i: int| is_key(t, hash, i) {
        let i = choose|i: int| is_key(t, hash, i);
        assert(is_key(s, hash, i));
    }
}

/// Cache of validation results.
pub struct LicenseCache {
    rows: Vec<LicenseRow>,
}

impl View for LicenseCache {
    type V = Seq<LicenseView>;

    closed spec fn view(&self) -> Seq<LicenseView> {
        order::views(self.rows@)
    }
}

impl LicenseCache {
    /// No key has two rows.
    pub open spec fn wf(&self) -> bool {
        distinct_keys(self@)
    }

    /// An empty cache.
    pub fn open_in_memory() -> (r: Result<Self, DbFault>)
        ensures
            r is Ok,
            r->Ok_0.wf(),
            r->Ok_0@ == Seq::<LicenseView>::empty(),
    {
        let c = LicenseCache { rows: Vec::new() };
        assert(c@ =~= Seq::<LicenseView>::empty());
        Ok(c)
    }

    fn find(&self, key_hash: &Vec<u8>) -> (r: Option<usize>)
        requires
            self.wf(),
        ensures
            match r {
                Some(i) => is_key(self@, key_hash@, i as int) && cached(self@, key_hash@) == Some(
                    self@[i as int],
                ) && (choose|j: int| is_key(self@, key_hash@, j)) == i,
                None => cached(self@, key_hash@) is None && !exists|j: int|
                    is_key(self@, key_hash@, j),
            },
    {
        let mut i: usize = 0;
        while i < self.rows.len()
            invariant
                i <= self.rows@.len(),
                self.wf(),
                forall|j: int| 0 <= j < i ==> !#[trigger] is_key(self@, key_hash@, j),
            decreases self.rows@.len() - i,
        {
            if rows::same_bytes(&self.rows[i].key_hash, key_hash) {
                proof {
                    lemma_key(self@, key_hash@, i as int);
                }
                return Some(i);
            }
            i += 1;
        }
        assert forall|j: int| !#[trigger] is_key(self@, key_hash@, j) by {
            if 0 <= j < self@.len() {
                assert(j < i);
            }
        }
        None
    }

    /// The cached result of a key.
    pub fn get(&self, key_hash: &Vec<u8>) -> (r: Result<Option<LicenseRow>, DbFault>)
        requires
            self.wf(),
        ensures
            r is Ok,
            row_opt(r->Ok_0) == cached(self@, key_hash@),
    {
        match self.find(key_hash) {
            Some(i) => Ok(Some(dup_row(&self.rows[i]))),
            None => Ok(None),
        }
    }

    /// The most recently validated row of a customer, whatever the key.
    pub fn latest_for_customer(&self, customer_id: &str) -> (r: Result<Option<LicenseRow>, DbFault>)
        ensures
            r is Ok,
            match r->Ok_0 {
                None => !knows_customer(self@, customer_id@),
                Some(row) => {
                    &&& self@.contains(row@)
                    &&& row.customer_id@ == customer_id@
                    &&& forall|i: int|
                        0 <= i < self@.len() && (#[trigger] self@[i]).customer_id == customer_id@
                            ==> self@[i].validated_at <= row.validated_at
                },
            },
    {
        let mut best: Option<usize> = None;
        let mut i: usize = 0;
        while i < self.rows.len()
            invariant
                i <= self.rows@.len(),
                match best {
                    None => forall|j: int|
                        0 <= j < i ==> (#[trigger] self@[j]).customer_id != customer_id@,
                    Some(b) => b < i && self@[b as int].customer_id == customer_id@ && forall|
                        j: int,
                    |
                        0 <= j < i && (#[trigger] self@[j]).customer_id == customer_id@
                            ==> self@[j].validated_at <= self@[b as int].validated_at,
                },
            decreases self.rows@.len() - i,
        {
            assert(self@[i as int] == self.rows@[i as int]@);
            if text::same(self.rows[i].customer_id.as_str(), customer_id) {
                match best {
                    None => {
                        best = Some(i);
                    },
                    Some(b) => {
                        assert(self@[b as int] == self.rows@[b as int]@);
                        if self.rows[i].validated_at > self.rows[b].validated_at {
                            best = Some(i);
                        }
                    },
                }
            }
            i += 1;
        }
        match best {
            None => Ok(None),
            Some(b) => {
                let row = dup_row(&self.rows[b]);
                assert(self@[b as int] == row@);
                Ok(Some(row))
            },
        }
    }

    /// Store a result, keeping a stored activation unless a new one comes.
    pub fn upsert(&mut self, row: &LicenseRow) -> (r: Result<(), DbFault>)
        requires
            old(self).wf(),
        ensures
            final(self).wf(),
            r is Ok,
            final(self)@ == upserted(old(self)@, row@),
    {
        proof {
            upsert_replaces(self@, row@);
        }
        let ghost before = self@;
        let mut fresh = dup_row(row);
        match self.find(&row.key_hash) {
            Some(i) => {
                if fresh.activation_id.is_none() {
                    fresh.activation_id = dup_opt(&self.rows[i].activation_id);
                }
                assert(fresh@ =~= merged(before[i as int], row@));
                self.rows.set(i, fresh);
                assert(self@ =~= before.update(i as int, merged(before[i as int], row@)));
            },
            None => {
                self.rows.push(fresh);
                assert(self@ =~= before.push(row@));
            },
        }
        Ok(())
    }

    /// Set or clear the activation of a key.
    pub fn set_activation(&mut self, key_hash: &Vec<u8>, activation_id: Option<&str>) -> (r: Result<
        (),
        DbFault,
    >)
        requires
            old(self).wf(),
        ensures
            final(self).wf(),
            r is Ok,
            final(self)@ == with_activation(
                old(self)@,
                key_hash@,
                crate::relay::registry::str_opt(activation_id),
            ),
    {
        let ghost before = self@;
        let ghost id = crate::relay::registry::str_opt(activation_id);
        proof {
            lemma_activation(before, key_hash@, id);
        }
        match self.find(key_hash) {
            Some(i) => {
                let mut row = dup_row(&self.rows[i]);
                row.activation_id = match activation_id {
                    Some(s) => Some(s.to_owned()),
                    None => None,
                };
                self.rows.set(i, row);
                proof {
                    assert forall|j: int| 0 <= j < before.len() implies #[trigger] self@[j]
                        == with_activation(before, key_hash@, id)[j] by {
                        if j != i && is_key(before, key_hash@, j) {
                            lemma_key(before, key_hash@, j);
                        }
                    }
                    assert(self@ =~= with_activation(before, key_hash@, id));
                }
            },
            None => {
                proof {
                    assert forall|j: int| 0 <= j < before.len() implies #[trigger] self@[j]
                        == with_activation(before, key_hash@, id)[j] by {
                        assert(!is_key(before, key_hash@, j));
                    }
                    assert(self@ =~= with_activation(before, key_hash@, id));
                }
            },
        }
        Ok(())
    }

    /// Whether some key of a customer is cached.
    fn knows(&self, customer_id: &str) -> (r: bool)
        ensures
            r == knows_customer(self@, customer_id@),
    {
        let mut i: usize = 0;
        while i < self.rows.len()
            invariant
                i <= self.rows@.len(),
                forall|j: int| 0 <= j < i ==> (#[trigger] self@[j]).customer_id != customer_id@,
            decreases self.rows@.len() - i,
        {
            if text::same(self.rows[i].customer_id.as_str(), customer_id) {
                assert(self@[i as int].customer_id == customer_id@);
                return true;
            }
            i += 1;
        }
        false
    }

    /// The pooled cap of a customer.
    pub fn pooled_cap(&self, customer_id: &str, now: i64, window: i64) -> (r: Option<i64>)
        ensures
            r == pool(self@, customer_id@, now, window),
    {
        let ghost s = self@;
        let mut best: Option<i64> = None;
        let mut i: usize = 0;
        while i < self.rows.len()
            invariant
                i <= self.rows@.len(),
                s == self@,
                best == pool(s.take(i as int), customer_id@, now, window),
            decreases self.rows@.len() - i,
        {
            proof {
                assert(s.take(i + 1).drop_last() =~= s.take(i as int));
                assert(s.take(i + 1).last() == self.rows@[i as int]@);
            }
            let row = &self.rows[i];
            if text::same(row.customer_id.as_str(), customer_id) && honorable(row, now, window) {
                match row.max_tunnels {
                    Some(m) => {
                        best = match best {
                            None => Some(m),
                            Some(x) => if m > x {
                                Some(m)
                            } else {
                                Some(x)
                            },
                        };
                    },
                    None => {},
                }
            }
            i += 1;
        }
        assert(s.take(i as int) =~= s);
        best
    }

    /// The rows, for storing them.
    pub fn entries(&self) -> (r: &Vec<LicenseRow>)
        ensures
            order::views(r@) == self@,
    {
        &self.rows
    }
}

/// Whether a row is a grant of a mapped benefit validated within `window`.
fn honorable(row: &LicenseRow, now: i64, window: i64) -> (r: bool)
    ensures
        r == row@.backs(now, window),
{
    text::same(row.status.as_str(), "granted") && row.max_tunnels.is_some() && now as i128
        <= row.validated_at as i128 + window as i128
}

/// Gate: cached results and the policy that interprets them.
#[verifier::ext_equal]
pub struct GateView {
    pub cache: Seq<LicenseView>,
    pub policy: PolicyView,
}

/// What authenticating a key comes to before the licence service is asked.
pub enum AuthStep {
    /// Decided without a round trip.
    Done(Option<AuthedUser>),
    /// Ask the licence service, with the cached result at hand.
    Validate(Option<LicenseRow>),
}

/// View of an [`AuthStep`].
pub enum AuthStepView {
    Done(Option<WhoView>),
    Validate(Option<LicenseView>),
}

impl View for AuthStep {
    type V = AuthStepView;

    open spec fn view(&self) -> AuthStepView {
        match self {
            AuthStep::Done(u) => AuthStepView::Done(auth::who_view(*u)),
            AuthStep::Validate(r) => AuthStepView::Validate(row_opt(*r)),
        }
    }
}

/// The account of a customer, provisioned when absent: its name is the
/// customer id.
pub open spec fn resolve(r: RegistryView, customer: Seq<char>, now: i64) -> (
    RegistryView,
    Option<WhoView>,
) {
    let (s, a) = r.ensure_user(customer, now);
    match a {
        Ok((id, _)) => (s, Some(WhoView { user_id: id, name: customer })),
        Err(_) => (s, None),
    }
}

impl GateView {
    /// First step of authenticating a key: a result fresher than the cache
    /// lifetime decides, positive or negative.
    pub open spec fn start(self, registry: RegistryView, key: Seq<char>, now: i64) -> (
        RegistryView,
        AuthStepView,
    ) {
        match cached(self.cache, key_digest(key)) {
            Some(row) if now <= row.validated_at + self.policy.ttl => if row.status == "granted"@
                && row.max_tunnels is Some {
                let (s, u) = resolve(registry, row.customer_id, now);
                (s, AuthStepView::Done(u))
            } else {
                (registry, AuthStepView::Done(None))
            },
            c => (registry, AuthStepView::Validate(c)),
        }
    }

    /// The row a grant is cached as.
    pub open spec fn grant_row(
        self,
        key: Seq<char>,
        customer_id: Seq<char>,
        benefit_id: Seq<char>,
        now: i64,
    ) -> LicenseView {
        LicenseView {
            key_hash: key_digest(key),
            customer_id,
            benefit_id,
            max_tunnels: benefit_cap(self.policy.benefits, benefit_id),
            status: "granted"@,
            activation_id: None,
            validated_at: now,
        }
    }

    /// Second step of authenticating a key: what the licence service answered.
    pub open spec fn finish(
        self,
        live: LiveView,
        key: Seq<char>,
        known: Option<LicenseView>,
        outcome: ValidateView,
        now: i64,
    ) -> (Self, LiveView, Option<WhoView>) {
        match outcome {
            ValidateView::Granted { customer_id, benefit_id } => {
                let row = self.grant_row(key, customer_id, benefit_id, now);
                let gate = GateView { cache: upserted(self.cache, row), ..self };
                if row.max_tunnels is None {
                    (gate, live, None)
                } else {
                    let (registry, who) = resolve(live.registry, customer_id, now);
                    let mid = LiveView { registry, ..live };
                    match (who, pool(gate.cache, customer_id, now, self.policy.grace)) {
                        (Some(u), Some(cap)) => (
                            gate,
                            mid.prune(u.user_id, cap, "plan change reduced your limit"@).0,
                            Some(u),
                        ),
                        (u, _) => (gate, mid, u),
                    }
                }
            },
            ValidateView::NotLicensed => match known {
                Some(row) => (
                    GateView {
                        cache: upserted(
                            self.cache,
                            LicenseView { status: "not_licensed"@, validated_at: now, ..row },
                        ),
                        ..self
                    },
                    live,
                    None,
                ),
                None => (self, live, None),
            },
            ValidateView::Unavailable(_) => match known {
                Some(row) if row.backs(now, self.policy.staleness) => {
                    let (registry, who) = resolve(live.registry, row.customer_id, now);
                    (self, LiveView { registry, ..live }, who)
                },
                _ => (self, live, None),
            },
        }
    }

    /// The cap of a session user. A user without a cached key is a local one
    /// and has none.
    pub open spec fn cap_for(self, user: Seq<char>, now: i64) -> CapDecision {
        if !knows_customer(self.cache, user) {
            CapDecision::Allow
        } else {
            match pool(self.cache, user, now, self.policy.staleness) {
                Some(m) => CapDecision::Cap(m),
                None => CapDecision::DenyAll,
            }
        }
    }

    /// The label to activate a key under before a claim, if that is needed.
    pub open spec fn needs_activation(self, key: Seq<char>, domain: Option<Seq<char>>) -> Option<
        Seq<char>,
    > {
        match cached(self.cache, key_digest(key)) {
            Some(row) if self.policy.activate && row.status == "granted"@ && row.activation_id
                is None => Some(
                match domain {
                    Some(d) => "relay:"@ + d,
                    None => "relay"@,
                },
            ),
            _ => None,
        }
    }

    /// The activation to give up for a key, if there is one.
    pub open spec fn held_activation(self, key: Seq<char>) -> Option<Seq<char>> {
        match cached(self.cache, key_digest(key)) {
            Some(row) => row.activation_id,
            None => None,
        }
    }

    /// What the cache becomes after the activation of a key was set or cleared.
    pub open spec fn activated(self, key: Seq<char>, id: Option<Seq<char>>) -> Self {
        GateView { cache: with_activation(self.cache, key_digest(key), id), ..self }
    }
}

/// The licence gate.
pub struct PolarGate {
    cache: LicenseCache,
    policy: PolarPolicy,
}

impl View for PolarGate {
    type V = GateView;

    closed spec fn view(&self) -> GateView {
        GateView { cache: self.cache@, policy: self.policy@ }
    }
}

impl PolarGate {
    /// The cache is consistent.
    pub closed spec fn wf(&self) -> bool {
        self.cache.wf()
    }

    pub fn new(cache: LicenseCache, policy: PolarPolicy) -> (r: Self)
        requires
            cache.wf(),
        ensures
            r.wf(),
            r@ == (GateView { cache: cache@, policy: policy@ }),
    {
        PolarGate { cache, policy }
    }

    /// The cache, for storing it.
    pub fn cache(&self) -> (r: &LicenseCache)
        requires
            self.wf(),
        ensures
            r.wf(),
            r@ == self@.cache,
    {
        &self.cache
    }

    /// Store a result as it is.
    pub fn store(&mut self, row: &LicenseRow)
        requires
            old(self).wf(),
        ensures
            final(self).wf(),
            final(self)@ == (GateView { cache: upserted(old(self)@.cache, row@), ..old(self)@ }),
    {
        let _ = self.cache.upsert(row);
    }

    /// Whether a claim needs a device activation.
    pub fn activate_on_claim(&self) -> (r: bool)
        ensures
            r == self@.policy.activate,
    {
        self.policy.activate_on_claim
    }

    /// The account of a customer, provisioned when absent.
    fn resolve_user(registry: &mut Registry, customer_id: &str, now: i64) -> (r: Option<AuthedUser>)
        requires
            old(registry).wf(),
        ensures
            final(registry).wf(),
            (final(registry)@, auth::who_view(r)) == resolve(old(registry)@, customer_id@, now),
    {
        match registry.lookup_user_id(customer_id) {
            Ok(Some(user_id)) => {
                return Some(AuthedUser { user_id, name: customer_id.to_owned() });
            },
            Ok(None) => {},
            Err(_) => return None,
        }
        match registry.add_user_at(customer_id, now) {
            Ok(user_id) => Some(AuthedUser { user_id, name: customer_id.to_owned() }),
            Err(_) => None,
        }
    }

    /// First step of authenticating a presented key. A cached result fresher
    /// than the cache lifetime decides; otherwise the licence service is to be
    /// asked.
    pub fn start_auth(&self, registry: &mut Registry, key: &str, now: i64) -> (r: AuthStep)
        requires
            self.wf(),
            old(registry).wf(),
        ensures
            final(registry).wf(),
            (final(registry)@, r@) == self@.start(old(registry)@, key@, now),
    {
        let key_hash = hash_key(key);
        let known = match self.cache.get(&key_hash) {
            Ok(k) => k,
            Err(_) => None,
        };
        match known {
            Some(row) => {
                if now as i128 <= row.validated_at as i128 + self.policy.cache_ttl_secs as i128 {
                    if text::same(row.status.as_str(), "granted") && row.max_tunnels.is_some() {
                        AuthStep::Done(Self::resolve_user(registry, row.customer_id.as_str(), now))
                    } else {
                        AuthStep::Done(None)
                    }
                } else {
                    AuthStep::Validate(Some(row))
                }
            },
            None => AuthStep::Validate(None),
        }
    }

    /// Second step of authenticating a presented key: `known` is what the first
    /// step found cached, `outcome` what the licence service answered.
    pub fn finish_auth(
        &mut self,
        registry: &mut Registry,
        router: &mut Router,
        sent: &mut Vec<(SessionHandle, ControlFrame)>,
        key: &str,
        known: Option<LicenseRow>,
        outcome: ValidateOutcome,
        now: i64,
    ) -> (r: Option<AuthedUser>)
        requires
            old(self).wf(),
            old(registry).wf(),
            old(router).wf(),
        ensures
            final(self).wf(),
            final(registry).wf(),
            final(router).wf(),
            ({
                let before = LiveView {
                    registry: old(registry)@,
                    router: old(router)@,
                    sent: cap::posts(old(sent)@),
                };
                let after = LiveView {
                    registry: final(registry)@,
                    router: final(router)@,
                    sent: cap::posts(final(sent)@),
                };
                (final(self)@, after, auth::who_view(r)) == old(self)@.finish(
                    before,
                    key@,
                    row_opt(known),
                    outcome@,
                    now,
                )
            }),
    {
        match outcome {
            ValidateOutcome::Granted { customer_id, benefit_id } => {
                let limit: Option<i64> = find_benefit(&self.policy.benefits, benefit_id.as_str());
                let row = LicenseRow {
                    key_hash: hash_key(key),
                    customer_id: customer_id.clone(),
                    benefit_id,
                    max_tunnels: limit,
                    status: "granted".to_owned(),
                    activation_id: None,
                    validated_at: now,
                };
                let _ = self.cache.upsert(&row);
                if limit.is_none() {
                    return None;
                }
                let user = Self::resolve_user(registry, customer_id.as_str(), now);
                let pooled: Option<i64> = self.cache.pooled_cap(
                    customer_id.as_str(),
                    now,
                    self.policy.cap_prune_grace_secs,
                );
                match (&user, pooled) {
                    (Some(u), Some(m)) => {
                        let _ = cap::prune_live(
                            registry,
                            router,
                            sent,
                            u.user_id,
                            m,
                            "plan change reduced your limit",
                        );
                    },
                    _ => {},
                }
                user
            },
            ValidateOutcome::NotLicensed => {
                match known {
                    Some(row) => {
                        let mut flipped = row;
                        flipped.status = "not_licensed".to_owned();
                        flipped.validated_at = now;
                        let _ = self.cache.upsert(&flipped);
                    },
                    None => {},
                }
                None
            },
            ValidateOutcome::Unavailable(_) => {
                match known {
                    Some(row) => {
                        if honorable(&row, now, self.policy.staleness_secs) {
                            return Self::resolve_user(registry, row.customer_id.as_str(), now);
                        }
                    },
                    None => {},
                }
                None
            },
        }
    }

    /// The cap of a session user at `now`: the pooled cap of its live keys, or
    /// none for a local user.
    pub fn cap_for(&self, user_name: &str, now: i64) -> (r: CapDecision)
        ensures
            r == self@.cap_for(user_name@, now),
    {
        if !self.cache.knows(user_name) {
            return CapDecision::Allow;
        }
        match self.cache.pooled_cap(user_name, now, self.policy.staleness_secs) {
            Some(m) => CapDecision::Cap(m),
            None => CapDecision::DenyAll,
        }
    }

    /// The label to activate a key under before a claim; `None` where no
    /// activation is needed: it is disabled, the credential is no granted key,
    /// or one is held already.
    pub fn activation_label(&self, key: &str, domain: Option<&str>) -> (r: Option<String>)
        requires
            self.wf(),
        ensures
            rows::opt_view(r) == self@.needs_activation(
                key@,
                crate::relay::registry::str_opt(domain),
            ),
    {
        if !self.policy.activate_on_claim {
            return None;
        }
        let row = match self.cache.get(&hash_key(key)) {
            Ok(Some(r)) => r,
            Ok(None) => return None,
            Err(_) => return None,
        };
        if !text::same(row.status.as_str(), "granted") || row.activation_id.is_some() {
            return None;
        }
        match domain {
            Some(d) => Some(text::join2("relay:", d)),
            None => Some("relay".to_owned()),
        }
    }

    /// What activating a key came to: an activation is stored, a used-up key
    /// denies the claim, and an unreachable service does not.
    pub fn finish_activation(&mut self, key: &str, outcome: ActivateOutcome) -> (r: Result<
        (),
        String,
    >)
        requires
            old(self).wf(),
        ensures
            final(self).wf(),
            final(self)@ == (match outcome@ {
                ActivateView::Activated { activation_id } => old(self)@.activated(
                    key@,
                    Some(activation_id),
                ),
                _ => old(self)@,
            }),
            match outcome@ {
                ActivateView::LimitReached => r is Err && r->Err_0@
                    == "license activation limit reached (key already active on another device/relay)"@,
                _ => r is Ok,
            },
    {
        match outcome {
            ActivateOutcome::Activated { activation_id } => {
                let _ = self.cache.set_activation(&hash_key(key), Some(activation_id.as_str()));
                Ok(())
            },
            ActivateOutcome::LimitReached => Err(
                "license activation limit reached (key already active on another device/relay)".to_owned(),
            ),
            ActivateOutcome::Unavailable(_) => Ok(()),
        }
    }

    /// The activation to give up for a key, if one is held.
    pub fn held_activation(&self, key: &str) -> (r: Option<String>)
        requires
            self.wf(),
        ensures
            rows::opt_view(r) == self@.held_activation(key@),
    {
        match self.cache.get(&hash_key(key)) {
            Ok(Some(row)) => row.activation_id,
            Ok(None) => None,
            Err(_) => None,
        }
    }

    /// What giving up an activation came to: it is forgotten when the licence
    /// service confirmed.
    pub fn finish_release(&mut self, key: &str, done: bool)
        requires
            old(self).wf(),
        ensures
            final(self).wf(),
            final(self)@ == (if done {
                old(self)@.activated(key@, None)
            } else {
                old(self)@
            }),
    {
        if done {
            let _ = self.cache.set_activation(&hash_key(key), None);
        }
    }
}

/// A customer's pooled cap is at least what each of its live keys grants, and
/// is granted by one of them.
pub proof fn pool_is_the_largest(s: Seq<LicenseView>, customer: Seq<char>, now: i64, window: i64)
    ensures
        forall|i: int|
            0 <= i < s.len() && (#[trigger] s[i]).customer_id == customer && s[i].backs(now, window)
                ==> pool(s, customer, now, window) is Some && pool(s, customer, now, window)->0
                >= s[i].max_tunnels->0,
        pool(s, customer, now, window) is Some ==> exists|i: int|
            0 <= i < s.len() && (#[trigger] s[i]).customer_id == customer && s[i].backs(now, window)
                && s[i].max_tunnels == pool(s, customer, now, window),
    decreases s.len(),
{
    if s.len() > 0 {
        let t = s.drop_last();
        pool_is_the_largest(t, customer, now, window);
        assert forall|i: int|
            0 <= i < s.len() && (#[trigger] s[i]).customer_id == customer && s[i].backs(
                now,
                window,
            ) implies pool(s, customer, now, window) is Some && pool(s, customer, now, window)->0
            >= s[i].max_tunnels->0 by {
            if i < t.len() {
                assert(t[i] == s[i]);
            }
        }
        if pool(s, customer, now, window) is Some {
            if pool(s, customer, now, window) == pool(t, customer, now, window) {
                let i = choose|i: int|
                    0 <= i < t.len() && (#[trigger] t[i]).customer_id == customer && t[i].backs(
                        now,
                        window,
                    ) && t[i].max_tunnels == pool(t, customer, now, window);
                assert(s[i] == t[i]);
            } else {
                let n = s.len() - 1;
                assert(s[n].max_tunnels == pool(s, customer, now, window));
            }
        }
    }
}

/// A fresh cached result is never asked about again: within the cache lifetime
/// a key is decided without a round trip.
pub proof fn fresh_result_needs_no_round_trip(
    gate: GateView,
    registry: RegistryView,
    key: Seq<char>,
    now: i64,
)
    ensures
        gate.start(registry, key, now).1 is Validate <==> (match cached(
            gate.cache,
            key_digest(key),
        ) {
            Some(row) => now > row.validated_at + gate.policy.ttl,
            None => true,
        }),
{
}

/// An outage is bridged for a bounded time only: without an answer, a key gets
/// in only on a grant validated within the staleness window.
pub proof fn outage_is_bounded(
    gate: GateView,
    live: LiveView,
    key: Seq<char>,
    known: Option<LicenseView>,
    why: Seq<char>,
    now: i64,
)
    ensures
        ({
            let (after, _, who) = gate.finish(
                live,
                key,
                known,
                ValidateView::Unavailable(why),
                now,
            );
            &&& after == gate
            &&& who is Some ==> known is Some && known->0.backs(now, gate.policy.staleness)
                && who->0.name == known->0.customer_id
        }),
{
}

/// A key that the licence service grants is remembered, and the pool it backs
/// is at least its own benefit's.
pub proof fn grant_is_remembered(
    gate: GateView,
    live: LiveView,
    key: Seq<char>,
    known: Option<LicenseView>,
    customer_id: Seq<char>,
    benefit_id: Seq<char>,
    now: i64,
)
    requires
        distinct_keys(gate.cache),
        gate.policy.staleness >= 0,
        benefit_cap(gate.policy.benefits, benefit_id) is Some,
    ensures
        ({
            let (after, _, _) = gate.finish(
                live,
                key,
                known,
                ValidateView::Granted { customer_id, benefit_id },
                now,
            );
            &&& cached(after.cache, key_digest(key)) is Some
            &&& after.cap_for(customer_id, now) matches CapDecision::Cap(m) && m >= benefit_cap(
                gate.policy.benefits,
                benefit_id,
            )->0
        }),
{
    let row = gate.grant_row(key, customer_id, benefit_id, now);
    upsert_replaces(gate.cache, row);
    let s = upserted(gate.cache, row);
    let i = choose|i: int| is_key(s, key_digest(key), i);
    assert(is_key(s, key_digest(key), i));
    lemma_key(s, key_digest(key), i);
    assert(s[i].customer_id == customer_id);
    assert(s[i].backs(now, gate.policy.staleness));
    pool_is_the_largest(s, customer_id, now, gate.policy.staleness);
}

/// Re-validating a small key does not prune what a larger sibling key pays for:
/// the pool is pruned to no less than what any of the customer's keys grants
/// that was validated within the grace time.
pub proof fn small_key_spares_its_siblings(
    gate: GateView,
    live: LiveView,
    key: Seq<char>,
    known: Option<LicenseView>,
    customer_id: Seq<char>,
    benefit_id: Seq<char>,
    now: i64,
    sibling: int,
)
    requires
        distinct_keys(gate.cache),
        live.registry.wf(),
        live.registry.lookup(customer_id) is Some,
        benefit_cap(gate.policy.benefits, benefit_id) is Some,
        0 <= sibling < gate.cache.len(),
        gate.cache[sibling].key_hash != key_digest(key),
        gate.cache[sibling].customer_id == customer_id,
        gate.cache[sibling].backs(now, gate.policy.grace),
        live.registry.owned_count(live.registry.lookup(customer_id)->0)
            <= gate.cache[sibling].max_tunnels->0,
    ensures
        ({
            let (_, after, _) = gate.finish(
                live,
                key,
                known,
                ValidateView::Granted { customer_id, benefit_id },
                now,
            );
            after.registry.owned_count(live.registry.lookup(customer_id)->0)
                == live.registry.owned_count(live.registry.lookup(customer_id)->0)
        }),
{
    let row = gate.grant_row(key, customer_id, benefit_id, now);
    let s = upserted(gate.cache, row);
    let id = live.registry.lookup(customer_id)->0;
    assert(s[sibling] == gate.cache[sibling]) by {
        if exists|i: int| is_key(gate.cache, row.key_hash, i) {
            let i = choose|i: int| is_key(gate.cache, row.key_hash, i);
            assert(i != sibling);
        }
    }
    pool_is_the_largest(s, customer_id, now, gate.policy.grace);
    let cap = pool(s, customer_id, now, gate.policy.grace)->0;
    crate::relay::ownership::pruning_keeps_the_oldest(live.registry, id, cap);
}

/// A customer whose only key turned out revoked may claim nothing: its cap
/// flips to a denial.
pub proof fn revoked_key_denies(
    gate: GateView,
    live: LiveView,
    key: Seq<char>,
    known: LicenseView,
    now: i64,
)
    requires
        distinct_keys(gate.cache),
        cached(gate.cache, key_digest(key)) == Some(known),
        forall|i: int|
            0 <= i < gate.cache.len() && (#[trigger] gate.cache[i]).customer_id
                == known.customer_id ==> gate.cache[i].key_hash == key_digest(key),
    ensures
        ({
            let (after, _, who) = gate.finish(
                live,
                key,
                Some(known),
                ValidateView::NotLicensed,
                now,
            );
            who is None && after.cap_for(known.customer_id, now) == CapDecision::DenyAll
        }),
{
    let row = LicenseView { status: "not_licensed"@, validated_at: now, ..known };
    let s = upserted(gate.cache, row);
    upsert_replaces(gate.cache, row);
    let k = choose|i: int| is_key(gate.cache, key_digest(key), i);
    lemma_key(gate.cache, key_digest(key), k);
    assert(s[k].customer_id == known.customer_id);
    pool_is_the_largest(s, known.customer_id, now, gate.policy.staleness);
    if pool(s, known.customer_id, now, gate.policy.staleness) is Some {
        let i = choose|i: int|
            0 <= i < s.len() && (#[trigger] s[i]).customer_id == known.customer_id && s[i].backs(
                now,
                gate.policy.staleness,
            ) && s[i].max_tunnels == pool(s, known.customer_id, now, gate.policy.staleness);
        if i != k {
            assert(gate.cache[i] == s[i]);
            lemma_key(gate.cache, key_digest(key), i);
        }
        assert(s[k].status == "not_licensed"@);
        reveal_strlit("not_licensed");
        reveal_strlit("granted");
        assert("not_licensed"@.len() != "granted"@.len());
    }
}

/// An activation is made once: while one is held no further one is asked for,
/// and giving it up makes the next claim ask again.
pub proof fn activation_is_made_once(
    gate: GateView,
    key: Seq<char>,
    id: Seq<char>,
    domain: Option<Seq<char>>,
)
    requires
        distinct_keys(gate.cache),
        gate.needs_activation(key, domain) is Some,
    ensures
        gate.activated(key, Some(id)).needs_activation(key, domain) is None,
        gate.activated(key, Some(id)).held_activation(key) == Some(id),
        gate.activated(key, Some(id)).activated(key, None).needs_activation(key, domain)
            == gate.needs_activation(key, domain),
{
    let h = key_digest(key);
    lemma_activation(gate.cache, h, Some(id));
    lemma_activation(gate.activated(key, Some(id)).cache, h, None);
}

/// What a reply to a validation means. The service being out of reach, busy
/// (429) or broken (any 5xx), or not to be understood, says nothing about the
/// key. Only a success with the status `granted` grants it, to the customer and
/// the benefit named there; and only a success with another status, or a
/// refusal of any other kind, says that it is not licensed.
pub proof fn outage_is_no_verdict(reply: Reply<ValidateResp>)
    ensures
        validate_meaning(reply) is Unavailable <==> match reply {
            Err(_) => true,
            Ok((status, _, body)) => status == 429 || 500 <= status <= 599 || (200 <= status <= 299
                && body is Err),
        },
        validate_meaning(reply) is NotLicensed <==> match reply {
            Err(_) => false,
            Ok((status, _, body)) => (200 <= status <= 299 && body is Ok && body->Ok_0.status@
                != "granted"@) || !(200 <= status <= 299 || status == 429 || 500 <= status <= 599),
        },
        validate_meaning(reply) matches ValidateView::Granted { customer_id, benefit_id } ==> (
        reply matches Ok((status, _, Ok(v))) && 200 <= status <= 299 && v.status@ == "granted"@
            && customer_id == v.customer_id@ && benefit_id == v.benefit_id@),
{
}

/// What a reply to an activation means: a success carries the activation, 403
/// alone says that the key is in use elsewhere, and everything else leaves it
/// open.
pub proof fn only_forbidden_is_a_limit(reply: Reply<String>)
    ensures
        activate_meaning(reply) is LimitReached <==> (reply matches Ok((status, _, _)) && status
            == 403),
        activate_meaning(reply) matches ActivateView::Activated { activation_id } ==> (
        reply matches Ok((status, _, Ok(id))) && 200 <= status <= 299 && id@ == activation_id),
        reply matches Ok((status, _, Ok(id))) ==> (200 <= status <= 299 ==> activate_meaning(reply)
            == (ActivateView::Activated { activation_id: id@ })),
{
}

/// A cached key backs its customer's tunnels exactly if it was granted, its
/// benefit has a cap, and it was validated no longer ago than the window.
pub proof fn backing_key_is_granted_and_recent(r: LicenseView, now: i64, window: i64)
    ensures
        r.backs(now, window) <==> r.status == "granted"@ && r.max_tunnels is Some && now
            - r.validated_at <= window,
{
}

/// The cap of a benefit is that of the first entry for it; without an entry it
/// has none.
pub proof fn first_benefit_counts(s: Seq<(Seq<char>, i64)>, id: Seq<char>, i: int)
    requires
        0 <= i <= s.len(),
        forall|j: int| 0 <= j < i ==> (#[trigger] s[j]).0 != id,
        i < s.len() ==> s[i].0 == id,
    ensures
        benefit_cap(s, id) == (if i < s.len() {
            Some(s[i].1)
        } else {
            None
        }),
    decreases i,
{
    if i > 0 {
        let rest = s.drop_first();
        assert(s[0].0 != id);
        assert forall|j: int| 0 <= j < i - 1 implies (#[trigger] rest[j]).0 != id by {
            assert(s[j + 1].0 != id);
        }
        first_benefit_counts(rest, id, i - 1);
    }
}

/// A cached result that is recent enough answers by itself: a granted key with
/// a cap is let in as its customer, and any other is turned away.
pub proof fn recent_result_answers(
    gate: GateView,
    registry: RegistryView,
    key: Seq<char>,
    row: LicenseView,
    now: i64,
)
    requires
        cached(gate.cache, key_digest(key)) == Some(row),
        now - row.validated_at <= gate.policy.ttl,
    ensures
        ({
            let (after, step) = gate.start(registry, key, now);
            let account = registry.ensure_user(row.customer_id, now);
            if row.status == "granted"@ && row.max_tunnels is Some {
                &&& after == account.0
                &&& step == AuthStepView::Done(
                    if account.1 is Ok {
                        Some(WhoView { user_id: account.1->Ok_0.0, name: row.customer_id })
                    } else {
                        None
                    },
                )
            } else {
                after == registry && step == AuthStepView::Done(None)
            }
        }),
{
}

/// A result that is too old, or none, is asked for again, with what is known of
/// the key; nothing changes meanwhile.
pub proof fn old_result_is_asked_again(
    gate: GateView,
    registry: RegistryView,
    key: Seq<char>,
    now: i64,
)
    requires
        cached(gate.cache, key_digest(key)) matches Some(row) ==> now - row.validated_at
            > gate.policy.ttl,
    ensures
        gate.start(registry, key, now) == (
            registry,
            AuthStepView::Validate(cached(gate.cache, key_digest(key))),
        ),
{
}

/// While the service is out of reach a key is let in, as its customer, exactly
/// if it was granted with a cap and validated within the staleness window; the
/// cache, the routes and what was sent stay as they are.
pub proof fn outage_honours_recent_grants(
    gate: GateView,
    live: LiveView,
    key: Seq<char>,
    known: Option<LicenseView>,
    why: Seq<char>,
    now: i64,
)
    ensures
        ({
            let (after, then, who) = gate.finish(
                live,
                key,
                known,
                ValidateView::Unavailable(why),
                now,
            );
            let honoured = known is Some && known->0.status == "granted"@ && known->0.max_tunnels
                is Some && now - known->0.validated_at <= gate.policy.staleness;
            let account = live.registry.ensure_user(known->0.customer_id, now);
            &&& after == gate
            &&& then.router == live.router
            &&& then.sent == live.sent
            &&& who is Some <==> honoured && account.1 is Ok
            &&& who is Some ==> who->0 == (WhoView {
                user_id: account.1->Ok_0.0,
                name: known->0.customer_id,
            })
            &&& then.registry == (if honoured {
                account.0
            } else {
                live.registry
            })
        }),
{
}

/// A granted key is let in as the customer it was granted to, if its benefit
/// has a cap; either way the cache then holds the grant as of now, and keeps
/// the activation it may have had.
pub proof fn grant_lets_its_customer_in(
    gate: GateView,
    live: LiveView,
    key: Seq<char>,
    known: Option<LicenseView>,
    customer_id: Seq<char>,
    benefit_id: Seq<char>,
    now: i64,
)
    requires
        distinct_keys(gate.cache),
    ensures
        ({
            let (after, then, who) = gate.finish(
                live,
                key,
                known,
                ValidateView::Granted { customer_id, benefit_id },
                now,
            );
            let cap = benefit_cap(gate.policy.benefits, benefit_id);
            let account = live.registry.ensure_user(customer_id, now);
            &&& after.policy == gate.policy
            &&& cached(after.cache, key_digest(key)) matches Some(row) && row.customer_id
                == customer_id && row.benefit_id == benefit_id && row.max_tunnels == cap
                && row.status == "granted"@ && row.validated_at == now && row.activation_id
                == gate.held_activation(key)
            &&& who is Some <==> cap is Some && account.1 is Ok
            &&& who is Some ==> who->0 == (WhoView {
                user_id: account.1->Ok_0.0,
                name: customer_id,
            })
            &&& cap is None ==> then == live
        }),
{
    upsert_replaces(gate.cache, gate.grant_row(key, customer_id, benefit_id, now));
}

/// A key that turns out not to be licensed is turned away; what was cached of
/// it is kept, marked as not licensed as of now, and nothing else changes.
pub proof fn refusal_is_remembered(
    gate: GateView,
    live: LiveView,
    key: Seq<char>,
    known: Option<LicenseView>,
    now: i64,
)
    requires
        distinct_keys(gate.cache),
        known == cached(gate.cache, key_digest(key)),
    ensures
        ({
            let (after, then, who) = gate.finish(live, key, known, ValidateView::NotLicensed, now);
            &&& who is None
            &&& then == live
            &&& after.policy == gate.policy
            &&& known is None ==> after == gate
            &&& known matches Some(row) ==> cached(after.cache, key_digest(key)) == Some(
                LicenseView { status: "not_licensed"@, validated_at: now, ..row },
            )
            &&& forall|h: Seq<u8>|
                h != key_digest(key) ==> #[trigger] cached(after.cache, h) == cached(gate.cache, h)
        }),
{
    if let Some(row) = known {
        let i = choose|i: int| is_key(gate.cache, key_digest(key), i);
        lemma_key(gate.cache, key_digest(key), i);
        upsert_replaces(
            gate.cache,
            LicenseView { status: "not_licensed"@, validated_at: now, ..row },
        );
    }
}

/// What a customer may have: everything if no key of theirs is known; else as
/// many tunnels as the largest of their granted and recent keys allows, and
/// nothing if there is no such key.
pub proof fn plan_is_the_largest_recent_key(
    gate: GateView,
    user: Seq<char>,
    now: i64,
)
    ensures
        ({
            let d = gate.cap_for(user, now);
            let s = gate.cache;
            let w = gate.policy.staleness;
            &&& d == CapDecision::Allow <==> forall|i: int|
                0 <= i < s.len() ==> (#[trigger] s[i]).customer_id != user
            &&& d matches CapDecision::Cap(m) ==> (exists|i: int|
                0 <= i < s.len() && (#[trigger] s[i]).customer_id == user && s[i].backs(now, w)
                    && s[i].max_tunnels == Some(m)) && (forall|i: int|
                0 <= i < s.len() && (#[trigger] s[i]).customer_id == user && s[i].backs(now, w)
                    ==> s[i].max_tunnels->0 <= m)
            &&& d == CapDecision::DenyAll ==> forall|i: int|
                0 <= i < s.len() && (#[trigger] s[i]).customer_id == user ==> !s[i].backs(now, w)
        }),
{
    pool_is_the_largest(gate.cache, user, now, gate.policy.staleness);
}

/// An activation is asked for exactly where the policy says so and the key is
/// granted and has none yet; its label names the relay.
pub proof fn activation_is_asked_for_when_due(
    gate: GateView,
    key: Seq<char>,
    domain: Option<Seq<char>>,
)
    ensures
        gate.needs_activation(key, domain) is Some <==> gate.policy.activate && (cached(
            gate.cache,
            key_digest(key),
        ) matches Some(row) && row.status == "granted"@ && row.activation_id is None),
        gate.needs_activation(key, domain) matches Some(label) ==> label == (match domain {
            Some(d) => "relay:"@ + d,
            None => "relay"@,
        }),
{
}

/// Storing a row keeps the activation the key had, unless the row brings one.
pub proof fn activation_survives_a_new_row(s: Seq<LicenseView>, r: LicenseView)
    requires
        distinct_keys(s),
    ensures
        cached(upserted(s, r), r.key_hash) matches Some(row) && row.customer_id == r.customer_id
            && row.benefit_id == r.benefit_id && row.max_tunnels == r.max_tunnels && row.status
            == r.status && row.validated_at == r.validated_at && row.activation_id == (
        if r.activation_id is Some {
            r.activation_id
        } else if cached(s, r.key_hash) is Some {
            cached(s, r.key_hash)->0.activation_id
        } else {
            None
        }),
{
    upsert_replaces(s, r);
}

/// Setting an activation touches that key alone.
pub proof fn activation_touches_one_key(s: Seq<LicenseView>, hash: Seq<u8>, id: Option<Seq<char>>, i: int)
    requires
        0 <= i < s.len(),
    ensures
        with_activation(s, hash, id).len() == s.len(),
        s[i].key_hash != hash ==> with_activation(s, hash, id)[i] == s[i],
        s[i].key_hash == hash ==> with_activation(s, hash, id)[i] == (LicenseView {
            activation_id: id,
            ..s[i]
        }),
{
}

} // verus!
