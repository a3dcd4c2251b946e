//! The certificate manager: when to issue, and what a challenge needs.
//!
//! One wildcard certificate is issued over a DNS challenge. The relay always
//! comes up: with the cached certificate if there is one, else with a
//! self-signed stopgap, and issuance goes on in the background.
use vstd::prelude::*;

use crate::relay::tls;
use crate::text;

verus! {

/// Nanoseconds in a second.
pub const NANOS: u128 = 1_000_000_000;

/// Renew once the leaf is within this many seconds of expiry.
pub const RENEW_BEFORE: u64 = 2_592_000;

/// Seconds between failed attempts.
pub const RETRY_AFTER: u64 = 300;

/// Seconds a record has to become visible.
pub const PROPAGATION_TIMEOUT: u64 = 150;

/// Shortest pause after an issuance, in seconds.
pub const MIN_PAUSE: u64 = 3600;

/// What issuing and renewing needs to know.
#[derive(Clone)]
pub struct AcmeManager {
    pub domain: String,
    pub state_dir: String,
    pub email: String,
    pub directory_url: String,
    pub cf_zone_id: String,
    pub cf_token: String,
}

/// `instant_acme::LetsEncrypt::url` of the production server.
#[verifier::external_body]
fn production_url() -> (r: &'static str)
    ensures
        r@ == "https://acme-v02.api.letsencrypt.org/directory"@,
{
    instant_acme::LetsEncrypt::Production.url()
}

/// `instant_acme::LetsEncrypt::url` of the staging server.
#[verifier::external_body]
fn staging_url() -> (r: &'static str)
    ensures
        r@ == "https://acme-staging-v02.api.letsencrypt.org/directory"@,
{
    instant_acme::LetsEncrypt::Staging.url()
}

/// The directory of the certificate authority.
pub open spec fn directory(staging: bool) -> Seq<char> {
    if staging {
        "https://acme-staging-v02.api.letsencrypt.org/directory"@
    } else {
        "https://acme-v02.api.letsencrypt.org/directory"@
    }
}

/// What the cached certificate allows.
#[derive(Clone, Copy, Debug, PartialEq, Eq, Structural)]
pub enum CertStep {
    /// It is good: look again after this many nanoseconds.
    Sleep(u128),
    /// A new one is needed.
    Issue,
}

/// Nanoseconds a certificate is still valid at `now` nanoseconds since the
/// epoch.
pub open spec fn remaining(not_after: u64, now: u128) -> int {
    if not_after * NANOS > now {
        not_after * NANOS - now
    } else {
        0
    }
}

fn remaining_of(not_after: u64, now: u128) -> (r: u128)
    ensures
        r == remaining(not_after, now),
{
    let end: u128 = not_after as u128 * NANOS;
    if end > now {
        end - now
    } else {
        0
    }
}

/// What a cached certificate allows, by its expiry; `None` when there is none
/// or its expiry is unreadable.
pub open spec fn cert_step(cached: Option<u64>, now: u128) -> CertStep {
    match cached {
        Some(not_after) => if remaining(not_after, now) > RENEW_BEFORE * NANOS {
            CertStep::Sleep((remaining(not_after, now) - RENEW_BEFORE * NANOS) as u128)
        } else {
            CertStep::Issue
        },
        None => CertStep::Issue,
    }
}

/// Sleep until the renewal window of the cached certificate, or issue a new
/// one.
pub fn ensure_cert(cached: Option<u64>, now: u128) -> (r: CertStep)
    ensures
        r == cert_step(cached, now),
{
    match cached {
        Some(not_after) => {
            let left: u128 = remaining_of(not_after, now);
            let window: u128 = RENEW_BEFORE as u128 * NANOS;
            if left > window {
                CertStep::Sleep(left - window)
            } else {
                CertStep::Issue
            }
        },
        None => CertStep::Issue,
    }
}

/// Nanoseconds to sleep after a certificate of this expiry was issued: until
/// its renewal window, and an hour at least.
pub fn after_issue(not_after: u64, now: u128) -> (r: u128)
    ensures
        r == (if remaining(not_after, now) - RENEW_BEFORE * NANOS > MIN_PAUSE * NANOS {
            remaining(not_after, now) - RENEW_BEFORE * NANOS
        } else {
            MIN_PAUSE * NANOS
        }),
{
    let left: u128 = remaining_of(not_after, now);
    let window: u128 = RENEW_BEFORE as u128 * NANOS;
    let pause: u128 = MIN_PAUSE as u128 * NANOS;
    if left > window && left - window > pause {
        left - window
    } else {
        pause
    }
}

/// The certificate at hand when the relay starts.
#[derive(Clone, Copy, Debug, PartialEq, Eq, Structural)]
pub enum CachedCert {
    /// None that could be used.
    Missing,
    /// One whose expiry cannot be read.
    Unreadable,
    /// One that expires at this second since the epoch.
    Expires(u64),
}

/// What the listener begins with.
#[derive(Clone, Copy, Debug, PartialEq, Eq, Structural)]
pub enum Boot {
    /// The cached certificate.
    Cached,
    /// A self-signed stopgap, while one is issued.
    Stopgap,
}

/// One authorization of an order, as far as a challenge cares.
pub struct Authorization {
    /// Already valid: nothing to do.
    pub valid: bool,
    /// Its DNS challenge, if it has one: the name it is for, or what else it is
    /// for, and the value of the record.
    pub challenge: Option<(Result<String, String>, String)>,
}

/// View of an [`Authorization`].
pub struct AuthorizationView {
    pub valid: bool,
    pub challenge: Option<(Result<Seq<char>, Seq<char>>, Seq<char>)>,
}

impl View for Authorization {
    type V = AuthorizationView;

    open spec fn view(&self) -> AuthorizationView {
        AuthorizationView {
            valid: self.valid,
            challenge: match self.challenge {
                Some((id, value)) => Some(
                    (
                        match id {
                            Ok(d) => Ok(d@),
                            Err(e) => Err(e@),
                        },
                        value@,
                    ),
                ),
                None => None,
            },
        }
    }
}

/// Views of a list of authorizations.
pub open spec fn authorization_views(v: Seq<Authorization>) -> Seq<AuthorizationView> {
    v.map_values(|a: Authorization| a@)
}

/// Where the record of a challenge for `domain` stands; a wildcard shares the
/// record of its domain.
pub open spec fn challenge_name(domain: Seq<char>) -> Seq<char> {
    "_acme-challenge."@ + (if "*."@.is_prefix_of(domain) {
        domain.skip("*."@.len() as int)
    } else {
        domain
    })
}

/// The name of a challenge's record.
pub fn challenge_record(domain: &str) -> (r: String)
    ensures
        r@ == challenge_name(domain@),
{
    match text::strip_prefix(domain, "*.") {
        Some(base) => text::join2("_acme-challenge.", base.as_str()),
        None => text::join2("_acme-challenge.", domain),
    }
}

/// The records that authorizations need, in order, up to the first that cannot
/// be met.
pub open spec fn wanted(auths: Seq<AuthorizationView>) -> Result<
    Seq<(Seq<char>, Seq<char>)>,
    Seq<char>,
>
    decreases auths.len(),
{
    if auths.len() == 0 {
        Ok(Seq::empty())
    } else {
        match wanted(auths.drop_last()) {
            Err(e) => Err(e),
            Ok(done) => {
                let a = auths.last();
                if a.valid {
                    Ok(done)
                } else {
                    match a.challenge {
                        None => Err("authorization has no DNS-01 challenge"@),
                        Some((id, value)) => match id {
                            Ok(d) => Ok(done.push((challenge_name(d), value))),
                            Err(e) => Err("unexpected identifier type: "@ + e),
                        },
                    }
                }
            },
        }
    }
}

/// Views of a list of records.
pub open spec fn record_views(v: Seq<(String, String)>) -> Seq<(Seq<char>, Seq<char>)> {
    v.map_values(|p: (String, String)| (p.0@, p.1@))
}

proof fn lemma_wanted_stops(auths: Seq<AuthorizationView>, i: int)
    requires
        0 <= i <= auths.len(),
        wanted(auths.take(i)) is Err,
    ensures
        wanted(auths) == wanted(auths.take(i)),
    decreases auths.len() - i,
{
    if i < auths.len() {
        assert(auths.take(i + 1).drop_last() =~= auths.take(i));
        lemma_wanted_stops(auths, i + 1);
    } else {
        assert(auths.take(i) =~= auths);
    }
}

/// The TXT records an order's authorizations need.
pub fn wanted_records(auths: &Vec<Authorization>) -> (r: Result<Vec<(String, String)>, String>)
    ensures
        match r {
            Ok(v) => wanted(authorization_views(auths@)) == Ok::<_, Seq<char>>(record_views(v@)),
            Err(e) => wanted(authorization_views(auths@)) == Err::<
                Seq<(Seq<char>, Seq<char>)>,
                _,
            >(e@),
        },
{
    let ghost av = authorization_views(auths@);
    let mut out: Vec<(String, String)> = Vec::new();
    let mut i: usize = 0;
    assert(av.take(0) =~= Seq::<AuthorizationView>::empty());
    assert(record_views(out@) =~= Seq::<(Seq<char>, Seq<char>)>::empty());
    while i < auths.len()
        invariant
            i <= auths@.len(),
            av == authorization_views(auths@),
            wanted(av.take(i as int)) == Ok::<_, Seq<char>>(record_views(out@)),
        decreases auths@.len() - i,
    {
        let ghost done = out@;
        proof {
            assert(av.take(i + 1).drop_last() =~= av.take(i as int));
            assert(av.take(i + 1).last() == auths@[i as int]@);
        }
        if !auths[i].valid {
            match &auths[i].challenge {
                None => {
                    proof {
                        lemma_wanted_stops(av, i + 1);
                    }
                    return Err("authorization has no DNS-01 challenge".to_owned());
                },
                Some((id, value)) => match id {
                    Ok(d) => {
                        let record = (challenge_record(d.as_str()), value.clone());
                        out.push(record);
                        assert(record_views(out@) =~= record_views(done).push(
                            (challenge_name(d@), value@),
                        ));
                    },
                    Err(e) => {
                        proof {
                            lemma_wanted_stops(av, i + 1);
                        }
                        return Err(text::join2("unexpected identifier type: ", e.as_str()));
                    },
                },
            }
        }
        i += 1;
    }
    assert(av.take(i as int) =~= av);
    Ok(out)
}

impl AcmeManager {
    pub fn new(
        domain: String,
        state_dir: String,
        email: String,
        staging: bool,
        cf_zone_id: String,
        cf_token: String,
    ) -> (r: Self)
        ensures
            r.domain == domain,
            r.state_dir == state_dir,
            r.email == email,
            r.directory_url@ == directory(staging),
            r.cf_zone_id == cf_zone_id,
            r.cf_token == cf_token,
    {
        let url = if staging {
            staging_url()
        } else {
            production_url()
        };
        AcmeManager {
            domain,
            state_dir,
            email,
            directory_url: url.to_owned(),
            cf_zone_id,
            cf_token,
        }
    }

    /// What the listener begins with, at `now` seconds since the epoch. A
    /// certificate is served unless it is known to be expired; a stopgap stands
    /// in for one that is, and where there is none.
    pub fn boot(&self, cached: CachedCert, now: u64) -> (r: Boot)
        ensures
            r == (match cached {
                CachedCert::Expires(not_after) => if not_after > now {
                    Boot::Cached
                } else {
                    Boot::Stopgap
                },
                CachedCert::Unreadable => Boot::Cached,
                CachedCert::Missing => Boot::Stopgap,
            }),
    {
        match cached {
            CachedCert::Expires(not_after) => if not_after > now {
                Boot::Cached
            } else {
                Boot::Stopgap
            },
            CachedCert::Unreadable => Boot::Cached,
            CachedCert::Missing => Boot::Stopgap,
        }
    }

    /// Whether a cached account may be used again: an account is bound to its
    /// directory.
    pub fn reuses_account(&self, cached_directory: Option<&str>) -> (r: bool)
        ensures
            r == (cached_directory is Some && cached_directory->0@ == self.directory_url@),
    {
        match cached_directory {
            Some(d) => text::same(d, self.directory_url.as_str()),
            None => false,
        }
    }

    /// The contact of a new account.
    pub fn contact(&self) -> (r: String)
        ensures
            r@ == "mailto:"@ + self.email@,
    {
        text::join2("mailto:", self.email.as_str())
    }

    /// The names the certificate is ordered for.
    pub fn identifiers(&self) -> (r: Vec<String>)
        ensures
            text::all_of(r@) == tls::wildcard_names(self.domain@),
    {
        tls::certificate_names(self.domain.as_str())
    }
}

/// A certificate is renewed before it expires: whenever the manager sleeps on a
/// cached one, it wakes while the whole renewal window is still ahead.
pub proof fn renewal_comes_before_expiry(not_after: u64, now: u128)
    ensures
        match cert_step(Some(not_after), now) {
            CertStep::Sleep(ns) => now + ns + RENEW_BEFORE * NANOS == not_after * NANOS,
            CertStep::Issue => remaining(not_after, now) <= RENEW_BEFORE * NANOS,
        },
{
    assert(not_after * NANOS <= 0xffff_ffff_ffff_ffff * 1_000_000_000) by (nonlinear_arith)
        requires
            not_after <= 0xffff_ffff_ffff_ffff,
            NANOS == 1_000_000_000,
    ;
}

/// The apex and its wildcard share one challenge record name.
pub proof fn wildcard_shares_the_record(domain: Seq<char>)
    requires
        !"*."@.is_prefix_of(domain),
    ensures
        challenge_name("*."@ + domain) == challenge_name(domain),
{
    let w = "*."@ + domain;
    assert(w.take("*."@.len() as int) =~= "*."@);
    assert(w.subrange(0, "*."@.len() as int) =~= "*."@);
    assert(w.skip("*."@.len() as int) =~= domain);
}

/// A certificate is renewed once no more than thirty days of it are left, and
/// issued at once where there is none. Times are nanoseconds.
pub proof fn renewal_is_thirty_days_ahead(not_after: u64, now: u128)
    ensures
        cert_step(None, now) == CertStep::Issue,
        cert_step(Some(not_after), now) == CertStep::Issue <==> not_after * 1_000_000_000 - now
            <= 2_592_000_000_000_000,
        cert_step(Some(not_after), now) matches CertStep::Sleep(ns) ==> now + ns
            + 2_592_000_000_000_000 == not_after * 1_000_000_000,
        RETRY_AFTER == 300,
        PROPAGATION_TIMEOUT == 150,
        MIN_PAUSE == 3600,
{
    renewal_comes_before_expiry(not_after, now);
}

/// The record of a challenge stands right below the domain, for the domain and
/// for its wildcard.
pub proof fn challenge_stands_below_the_domain(domain: Seq<char>)
    requires
        !"*."@.is_prefix_of(domain),
    ensures
        challenge_name(domain) == "_acme-challenge."@ + domain,
        challenge_name("*."@ + domain) == "_acme-challenge."@ + domain,
{
    wildcard_shares_the_record(domain);
}

/// Whether an authorization can go on: it is valid, or has a challenge for a
/// domain.
pub open spec fn can_go_on(a: AuthorizationView) -> bool {
    a.valid || (a.challenge matches Some((id, _)) && id is Ok)
}

/// Records are found if and only if every authorization can go on.
pub proof fn stuck_authorization_stops_all(auths: Seq<AuthorizationView>)
    ensures
        wanted(auths) is Ok <==> forall|i: int|
            0 <= i < auths.len() ==> can_go_on(#[trigger] auths[i]),
    decreases auths.len(),
{
    if auths.len() > 0 {
        let front = auths.drop_last();
        stuck_authorization_stops_all(front);
        assert(forall|i: int| 0 <= i < front.len() ==> #[trigger] auths[i] == front[i]);
        assert(auths.last() == auths[auths.len() - 1]);
    }
}

/// Whether an authorization asks for a record.
pub open spec fn asks_for(a: AuthorizationView, record: (Seq<char>, Seq<char>)) -> bool {
    !a.valid && (a.challenge matches Some((id, value)) && (id matches Ok(domain) && record == (
        challenge_name(domain),
        value,
    )))
}

/// A record is wanted for each authorization that is not valid yet.
pub proof fn open_authorization_gets_its_record(auths: Seq<AuthorizationView>, i: int)
    requires
        wanted(auths) is Ok,
        0 <= i < auths.len(),
        !auths[i].valid,
    ensures
        exists|j: int|
            0 <= j < wanted(auths)->Ok_0.len() && #[trigger] asks_for(
                auths[i],
                wanted(auths)->Ok_0[j],
            ),
    decreases auths.len(),
{
    let front = auths.drop_last();
    let all = wanted(auths)->Ok_0;
    let done = wanted(front)->Ok_0;
    if i < front.len() {
        open_authorization_gets_its_record(front, i);
        let j = choose|j: int| 0 <= j < done.len() && #[trigger] asks_for(front[i], done[j]);
        assert(all[j] == done[j]);
        assert(asks_for(auths[i], all[j]));
    } else {
        assert(asks_for(auths[i], all[all.len() - 1]));
    }
}

/// Only authorizations that are not valid yet have records.
pub proof fn record_serves_an_open_authorization(auths: Seq<AuthorizationView>, j: int)
    requires
        wanted(auths) is Ok,
        0 <= j < wanted(auths)->Ok_0.len(),
    ensures
        exists|i: int|
            0 <= i < auths.len() && #[trigger] asks_for(auths[i], wanted(auths)->Ok_0[j]),
    decreases auths.len(),
{
    let front = auths.drop_last();
    let all = wanted(auths)->Ok_0;
    let done = wanted(front)->Ok_0;
    if j < done.len() {
        record_serves_an_open_authorization(front, j);
        let i = choose|i: int| 0 <= i < front.len() && #[trigger] asks_for(front[i], done[j]);
        assert(all[j] == done[j]);
        assert(asks_for(auths[i], all[j]));
    } else {
        assert(asks_for(auths[auths.len() - 1], all[j]));
    }
}

/// The first authorization that cannot go on tells why none does.
pub proof fn first_stuck_authorization_tells(auths: Seq<AuthorizationView>, i: int)
    requires
        0 <= i < auths.len(),
        forall|j: int| 0 <= j < i ==> can_go_on(#[trigger] auths[j]),
        !can_go_on(auths[i]),
    ensures
        wanted(auths) == (match auths[i].challenge {
            None => Err::<Seq<(Seq<char>, Seq<char>)>, _>("authorization has no DNS-01 challenge"@),
            Some((id, _)) => Err("unexpected identifier type: "@ + id->Err_0),
        }),
{
    let front = auths.take(i);
    let to = auths.take(i + 1);
    stuck_authorization_stops_all(front);
    assert(forall|j: int| 0 <= j < i ==> front[j] == auths[j]);
    assert(to.drop_last() =~= front);
    assert(to.last() == auths[i]);
    lemma_wanted_stops(auths, i + 1);
}

} // verus!
