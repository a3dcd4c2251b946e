use ethertunnel::proto::frames::ControlFrame;
use ethertunnel::relay::auth::{AuthedUser, Authenticator};
use ethertunnel::relay::cap::CapDecision;
use ethertunnel::relay::clock::now_unix;
use ethertunnel::relay::entitlement::{
    Entitlement, EntitlementCache, EntitlementGate, KeygatePolicy,
};
use ethertunnel::relay::plan;
use ethertunnel::relay::polar::{
    activate_body, activate_outcome, deactivate_body, deactivate_outcome, endpoint_url,
    validate_body, validate_outcome, ActivateOutcome, AuthStep, LicenseCache, LicenseRow,
    PolarGate, PolarPolicy, ValidateOutcome, ValidateResp, CAP_PRUNE_GRACE_SECS,
};
use ethertunnel::relay::registry::{hash_token, Registry};
use ethertunnel::relay::router::{Router, SessionHandle};
use ethertunnel::relay::session::{handle_claim, list_owned, ClaimStep};

const KEY: &str = "CMND-TEST-KEY-0001";
const DOMAIN: &str = "ethertunnel.com";

/// What the licence service would answer.
#[derive(Default)]
struct Backend {
    granted: Vec<(String, String, String)>,
    outage: Option<String>,
    validate_calls: usize,
    activate_calls: usize,
}

impl Backend {
    fn granting(key: &str, customer: &str, benefit: &str) -> Self {
        Backend {
            granted: vec![(key.into(), customer.into(), benefit.into())],
            ..Default::default()
        }
    }

    fn validate(&mut self, key: &str) -> ValidateOutcome {
        self.validate_calls += 1;
        if let Some(why) = &self.outage {
            return ValidateOutcome::Unavailable(why.clone());
        }
        match self.granted.iter().find(|g| g.0 == key) {
            Some(g) => {
                ValidateOutcome::Granted { customer_id: g.1.clone(), benefit_id: g.2.clone() }
            }
            None => ValidateOutcome::NotLicensed,
        }
    }
}

struct World {
    gate: PolarGate,
    registry: Registry,
    router: Router,
    sent: Vec<(SessionHandle, ControlFrame)>,
    backend: Backend,
}

fn policy(benefits: &[(&str, i64)]) -> PolarPolicy {
    PolarPolicy {
        organization_id: "org-test".into(),
        cache_ttl_secs: 300,
        staleness_secs: 259_200,
        cap_prune_grace_secs: CAP_PRUNE_GRACE_SECS,
        activate_on_claim: true,
        benefits: benefits.iter().map(|(k, v)| (k.to_string(), *v)).collect(),
    }
}

fn world(backend: Backend, benefits: &[(&str, i64)]) -> World {
    World {
        gate: PolarGate::new(LicenseCache::open_in_memory().unwrap(), policy(benefits)),
        registry: Registry::open_in_memory(DOMAIN).unwrap(),
        router: Router::new(),
        sent: vec![],
        backend,
    }
}

impl World {
    fn authenticate_at(&mut self, key: &str, now: i64) -> Option<AuthedUser> {
        match self.gate.start_auth(&mut self.registry, key, now) {
            AuthStep::Done(user) => user,
            AuthStep::Validate(known) => {
                let outcome = self.backend.validate(key);
                self.gate.finish_auth(
                    &mut self.registry,
                    &mut self.router,
                    &mut self.sent,
                    key,
                    known,
                    outcome,
                    now,
                )
            }
        }
    }

    fn authenticate(&mut self, key: &str) -> Option<AuthedUser> {
        self.authenticate_at(key, now_unix())
    }

    fn row(&self, key: &str) -> LicenseRow {
        self.gate.cache().get(&hash_token(key)).unwrap().unwrap()
    }

    fn ensure_activated(&mut self, key: &str, full: bool) -> Result<(), String> {
        match self.gate.activation_label(key, Some(DOMAIN)) {
            None => Ok(()),
            Some(_) => {
                self.backend.activate_calls += 1;
                let outcome = if full {
                    ActivateOutcome::LimitReached
                } else {
                    ActivateOutcome::Activated { activation_id: format!("act-{key}") }
                };
                self.gate.finish_activation(key, outcome)
            }
        }
    }
}

#[test]
fn granted_key_provisions_user_and_caches() {
    let mut w = world(Backend::granting(KEY, "cust_1", "ben_cm"), &[("ben_cm", 1)]);
    let user = w.authenticate(KEY).expect("granted key authenticates");
    assert_eq!(user.name, "cust_1");
    // The account was implicitly provisioned in the registry.
    assert_eq!(w.registry.lookup_user_id("cust_1").unwrap(), Some(user.user_id));
    // And the cap resolves from the benefits map.
    assert_eq!(w.gate.cap_for("cust_1", now_unix()), CapDecision::Cap(1));
    // A second authenticate within the TTL is served from cache.
    let again = w.authenticate(KEY).expect("cached key authenticates");
    assert_eq!(again.user_id, user.user_id);
}

#[test]
fn cache_fresh_hit_skips_http() {
    let mut w = world(Backend::granting(KEY, "cust_1", "ben_cm"), &[("ben_cm", 1)]);
    w.authenticate(KEY).unwrap();
    w.authenticate(KEY).unwrap();
    w.authenticate(KEY).unwrap();
    assert_eq!(w.backend.validate_calls, 1);
}

#[test]
fn unknown_key_is_denied() {
    let mut w = world(Backend::granting(KEY, "cust_1", "ben_cm"), &[("ben_cm", 1)]);
    assert!(w.authenticate("CMND-WRONG").is_none());
    // No phantom account.
    assert_eq!(w.registry.lookup_user_id("cust_1").unwrap(), None);
}

#[test]
fn unknown_benefit_is_denied_loudly() {
    let mut w = world(Backend::granting(KEY, "cust_1", "ben_unknown"), &[("ben_cm", 1)]);
    assert!(w.authenticate(KEY).is_none());
    // The cache row exists (so cap_for is DenyAll, not Allow).
    assert_eq!(w.gate.cap_for("cust_1", now_unix()), CapDecision::DenyAll);
}

#[test]
fn outage_honors_cached_grant_within_staleness() {
    let mut w = world(Backend::granting(KEY, "cust_1", "ben_cm"), &[("ben_cm", 1)]);
    w.authenticate(KEY).expect("seed");

    // Age the row past the TTL but well within staleness, then break the service.
    let mut row = w.row(KEY);
    row.validated_at = now_unix() - 300 - 10;
    let outage = Backend { outage: Some("connect refused".into()), ..Default::default() };
    let mut w2 = world(outage, &[("ben_cm", 1)]);
    w2.gate.store(&row);
    let user = w2
        .authenticate(KEY)
        .expect("stale-but-honorable grant authenticates during outage");
    assert_eq!(user.name, "cust_1");

    // Past the staleness window the same outage denies.
    row.validated_at = now_unix() - 259_200 - 10;
    w2.gate.store(&row);
    assert!(w2.authenticate(KEY).is_none());
}

#[test]
fn revoked_key_flips_to_denied_after_ttl() {
    let mut w = world(Backend::granting(KEY, "cust_1", "ben_cm"), &[("ben_cm", 1)]);
    w.authenticate(KEY).expect("seed");

    let mut row = w.row(KEY);
    row.validated_at = now_unix() - 301;
    let mut w2 = world(Backend::default(), &[("ben_cm", 1)]);
    w2.gate.store(&row);
    assert!(w2.authenticate(KEY).is_none(), "revoked key must deny");
    assert_eq!(
        w2.gate.cap_for("cust_1", now_unix()),
        CapDecision::DenyAll,
        "the cached row flips to not_licensed so live sessions are torn down"
    );
}

#[test]
fn activation_lifecycle_and_limit() {
    let mut w = world(Backend::granting(KEY, "cust_1", "ben_cm"), &[("ben_cm", 1)]);
    w.authenticate(KEY).expect("seed");

    // First claim activates and stores the id.
    assert_eq!(
        w.gate.activation_label(KEY, Some(DOMAIN)),
        Some("relay:ethertunnel.com".to_string())
    );
    assert!(w.gate.activate_on_claim());
    w.ensure_activated(KEY, false).expect("first activation");
    let act = w.row(KEY).activation_id.expect("activation id stored");

    // A reconnect / re-claim re-uses it (no second activate call).
    w.ensure_activated(KEY, false).expect("idempotent re-claim");
    assert_eq!(w.row(KEY).activation_id.as_deref(), Some(act.as_str()));
    assert_eq!(w.backend.activate_calls, 1);

    // Releasing the activation clears the stored id.
    assert_eq!(w.gate.held_activation(KEY), Some(act));
    w.gate.finish_release(KEY, false);
    assert!(w.row(KEY).activation_id.is_some());
    w.gate.finish_release(KEY, true);
    assert_eq!(w.row(KEY).activation_id, None);
}

#[test]
fn activation_limit_reached_denies_claim() {
    let mut w = world(Backend::granting(KEY, "cust_1", "ben_cm"), &[("ben_cm", 1)]);
    w.authenticate(KEY).expect("seed");
    let err = w.ensure_activated(KEY, true).expect_err("limit reached denies");
    assert!(err.contains("activation limit"));
}

#[test]
fn local_token_users_are_uncapped() {
    let mut w = world(Backend::default(), &[("ben_cm", 1)]);
    // No cache row for this name (a local `etun admin` user).
    assert_eq!(w.gate.cap_for("mat", now_unix()), CapDecision::Allow);
    // Activation of a non-license credential is a no-op Ok.
    w.ensure_activated("etun_local_token", false).expect("no-op");
    assert_eq!(w.backend.activate_calls, 0);
}

#[test]
fn downgrade_prunes_over_cap_tunnels() {
    let benefits = [("ben_indie", 3), ("ben_cm", 1)];
    let mut w = world(Backend::granting(KEY, "cust_1", "ben_indie"), &benefits);
    let user = w.authenticate(KEY).expect("seed");
    for label in ["a", "b", "c"] {
        w.registry.claim_label(user.user_id, label).unwrap();
    }
    assert_eq!(w.registry.count_owned_resources(user.user_id).unwrap(), 3);

    // The tier switch: same customer, new key on the 1-cap benefit, on the SAME
    // registry and router.
    let new_key = "CMND-NEW-KEY";
    let mut w2 = World {
        gate: PolarGate::new(LicenseCache::open_in_memory().unwrap(), policy(&benefits)),
        registry: w.registry,
        router: w.router,
        sent: vec![],
        backend: Backend::granting(new_key, "cust_1", "ben_cm"),
    };
    let user2 = w2.authenticate(new_key).expect("new key authenticates");
    assert_eq!(user2.user_id, user.user_id, "same customer, same account");
    // Owned rows were pruned to the new cap (oldest kept).
    assert_eq!(w2.registry.count_owned_resources(user.user_id).unwrap(), 1);
    assert!(w2.registry.owns_hostname(user.user_id, "a.ethertunnel.com"));
}

const CUSTOMER: &str = "cust_1d39c89f";
const TEAM_KEY: &str = "ETUN-TEAM-SANDBOX-KEY";
const CM_KEY: &str = "ETUN-CORTEXMIND-SANDBOX-KEY";
const HOST_FIRST: &str = "cortex-tunnel.ethertunnel.com";
const HOST_SECOND: &str = "team-tunnel.ethertunnel.com";
const HOST_THIRD: &str = "extra-tunnel.ethertunnel.com";

fn claim(w: &mut World, h: &SessionHandle, key: &str, host: &str, now: i64) -> ControlFrame {
    w.ensure_activated(key, false).unwrap();
    let decision = w.gate.cap_for(CUSTOMER, now);
    match handle_claim(
        &mut w.registry,
        &mut w.router,
        h,
        &vec![host.to_string()],
        &vec![],
        None,
        &vec![],
        decision,
        now,
    ) {
        ClaimStep::Answer { reply, .. } => reply,
        ClaimStep::Bind(p) => panic!("no port was claimed, got {p}"),
    }
}

fn owned(w: &World, user: i64, now: i64) -> (Vec<String>, Option<i64>) {
    match list_owned(&w.registry, user, w.gate.cap_for(CUSTOMER, now)) {
        ControlFrame::Owned { mut hostnames, max_tunnels, .. } => {
            hostnames.sort();
            (hostnames, max_tunnels)
        }
        other => panic!("expected Owned, got {other:?}"),
    }
}

fn sorted(hosts: &[&str]) -> Vec<String> {
    let mut v: Vec<String> = hosts.iter().map(|h| h.to_string()).collect();
    v.sort();
    v
}

#[test]
fn pooled_cap_survives_small_key_revalidation_then_prunes_on_real_downgrade() {
    let mut backend = Backend::granting(TEAM_KEY, CUSTOMER, "ben_team");
    backend.granted.push((CM_KEY.into(), CUSTOMER.into(), "ben_cortexmind".into()));
    let mut w = world(backend, &[("ben_team", 30), ("ben_cortexmind", 1)]);
    let t0 = 1_000_000_000;

    // 1. The small daemon (cap 1) connects and claims its one tunnel.
    let user = w.authenticate_at(CM_KEY, t0).unwrap();
    let cm = SessionHandle::new(1, user.user_id);
    assert!(matches!(
        claim(&mut w, &cm, CM_KEY, HOST_FIRST, t0),
        ControlFrame::Granted { .. }
    ));

    // 2. The team daemon (cap 30), same customer, claims a second tunnel.
    let user2 = w.authenticate_at(TEAM_KEY, t0 + 1).unwrap();
    assert_eq!(user2.user_id, user.user_id);
    let team = SessionHandle::new(2, user2.user_id);
    assert!(matches!(
        claim(&mut w, &team, TEAM_KEY, HOST_SECOND, t0 + 1),
        ControlFrame::Granted { .. }
    ));

    // 3. The small key's cached validation expires and is renewed: nothing is
    //    pruned, and the pooled cap is reported.
    let t1 = t0 + 302;
    assert!(w.authenticate_at(CM_KEY, t1).is_some());
    assert!(w.router.lookup_http(HOST_SECOND).is_some(), "route torn down");
    assert_eq!(
        owned(&w, user.user_id, t1),
        (sorted(&[HOST_FIRST, HOST_SECOND]), Some(30))
    );

    // 4. The pooled cap is enforced, not merely reported.
    assert!(matches!(
        claim(&mut w, &cm, CM_KEY, HOST_THIRD, t1 + 1),
        ControlFrame::Granted { .. }
    ));
    assert_eq!(w.registry.count_owned_resources(user.user_id).unwrap(), 3);

    // 5. A genuine downgrade: the team key is never presented again and ages
    //    past the prune grace; the next renewal of the small key prunes.
    w.router.remove_session(team.session_id);
    let t2 = t0 + 1 + CAP_PRUNE_GRACE_SECS + 1;
    assert!(w.authenticate_at(CM_KEY, t2).is_some());
    assert_eq!(owned(&w, user.user_id, t2), (sorted(&[HOST_FIRST]), Some(1)));
    assert!(w.router.lookup_http(HOST_THIRD).is_none());
    assert!(w.router.lookup_http(HOST_FIRST).is_some());
    assert_eq!(w.backend.activate_calls, 2, "each key activates once");
}

fn reply(status: u16, text: &str) -> Result<(u16, String, Result<ValidateResp, String>), String> {
    let parsed = Ok(ValidateResp {
        customer_id: "cust".into(),
        benefit_id: "ben".into(),
        status: text.into(),
    });
    Ok((status, format!("{status}"), parsed))
}

#[test]
fn validation_replies_are_read() {
    assert!(matches!(
        validate_outcome(reply(200, "granted")),
        ValidateOutcome::Granted { customer_id, benefit_id }
            if customer_id == "cust" && benefit_id == "ben"
    ));
    assert!(matches!(validate_outcome(reply(200, "revoked")), ValidateOutcome::NotLicensed));
    assert!(matches!(validate_outcome(reply(404, "granted")), ValidateOutcome::NotLicensed));
    assert!(matches!(validate_outcome(reply(500, "granted")), ValidateOutcome::Unavailable(_)));
    assert!(matches!(
        validate_outcome(Err("connect refused".into())),
        ValidateOutcome::Unavailable(why) if why == "connect refused"
    ));
    assert!(matches!(
        validate_outcome(Ok((200, "200 OK".into(), Err("eof".into())))),
        ValidateOutcome::Unavailable(_)
    ));
}

#[test]
fn activation_replies_are_read() {
    assert!(matches!(
        activate_outcome(Ok((200, "200 OK".into(), Ok("act".into())))),
        ActivateOutcome::Activated { activation_id } if activation_id == "act"
    ));
    assert!(matches!(
        activate_outcome(Ok((403, "403 Forbidden".into(), Err("".into())))),
        ActivateOutcome::LimitReached
    ));
    assert!(matches!(activate_outcome(Err("down".into())), ActivateOutcome::Unavailable(_)));
    assert!(deactivate_outcome(Ok((204, "204 No Content".into()))).is_ok());
    assert!(deactivate_outcome(Ok((500, "500".into()))).is_err());
    assert_eq!(deactivate_outcome(Err("down".into())), Err("down".to_string()));
}

#[test]
fn requests_are_json_objects() {
    let v: serde_json::Value = serde_json::from_str(&validate_body("k\"1", "org")).unwrap();
    assert_eq!(v["key"].as_str(), Some("k\"1"));
    assert_eq!(v["organization_id"].as_str(), Some("org"));
    let a: serde_json::Value = serde_json::from_str(&activate_body("k", "org", "lab")).unwrap();
    assert_eq!(a["label"].as_str(), Some("lab"));
    let d: serde_json::Value = serde_json::from_str(&deactivate_body("k", "org", "id")).unwrap();
    assert_eq!(d["activation_id"].as_str(), Some("id"));
    assert_eq!(
        endpoint_url("https://api.polar.sh/", "/v1/validate"),
        "https://api.polar.sh/v1/validate"
    );
}

#[test]
fn newest_row_of_a_customer_is_found() {
    let mut cache = LicenseCache::open_in_memory().unwrap();
    for (k, at) in [("a", 5), ("b", 9), ("c", 7)] {
        cache
            .upsert(&LicenseRow {
                key_hash: hash_token(k),
                customer_id: "cust".into(),
                benefit_id: "ben".into(),
                max_tunnels: Some(at),
                status: "granted".into(),
                activation_id: None,
                validated_at: at,
            })
            .unwrap();
    }
    assert_eq!(
        cache.latest_for_customer("cust").unwrap().unwrap().key_hash,
        hash_token("b")
    );
    assert!(cache.latest_for_customer("other").unwrap().is_none());
    assert_eq!(cache.pooled_cap("cust", 10, 2), Some(9));
    assert_eq!(cache.pooled_cap("cust", 100, 2), None);
    cache.set_activation(&hash_token("a"), Some("act")).unwrap();
    assert_eq!(
        cache.get(&hash_token("a")).unwrap().unwrap().activation_id.as_deref(),
        Some("act")
    );
    assert_eq!(cache.entries().len(), 3);
}

#[test]
fn local_tokens_are_checked_first() {
    let mut w = world(Backend::granting(KEY, "cust_1", "ben_cm"), &[("ben_cm", 3)]);
    w.registry.add_user("ann").unwrap();
    let token = w.registry.create_token("ann", None).unwrap();
    match plan::authenticate(&mut w.registry, Some(&w.gate), &token, 1_000) {
        AuthStep::Done(Some(user)) => assert_eq!(user.name, "ann"),
        _ => panic!("a local token needs no licence service"),
    }
    // Anything else is a licence key where licences are sold, and nobody's elsewhere.
    let step = plan::authenticate(&mut w.registry, Some(&w.gate), KEY, 1_000);
    assert!(matches!(step, AuthStep::Validate(None)));
    let step = plan::authenticate(&mut w.registry, None, KEY, 1_000);
    assert!(matches!(step, AuthStep::Done(None)));
    assert!(w.authenticate_at(KEY, 1_000).is_some());
    match plan::authenticate(&mut w.registry, Some(&w.gate), KEY, 1_001) {
        AuthStep::Done(Some(user)) => assert_eq!(user.name, "cust_1"),
        _ => panic!("a fresh result decides"),
    }
}

#[test]
fn entitlements_decide_before_licences() {
    let mut w = world(Backend::granting(KEY, "cust_1", "ben_cm"), &[("ben_cm", 3)]);
    assert!(w.authenticate_at(KEY, 1_000).is_some());
    let mut cache = EntitlementCache::open_in_memory().unwrap();
    cache
        .upsert(&Entitlement {
            external_ref: "cust_1".into(),
            customer_id: 1,
            max_tunnels: Some(7),
            status: "active".into(),
            issued_at: 0,
            expires_at: i64::MAX,
            updated_at: 0,
        })
        .unwrap();
    let signed = EntitlementGate::new(
        cache,
        KeygatePolicy {
            product: "ethertunnel".into(),
            public_key_b64: String::new(),
            key_id: "k1".into(),
            staleness_ceiling_secs: 0,
            require_entitlement: false,
        },
    );
    let both = plan::decision(Some(&signed), Some(&w.gate), "cust_1", 1_000);
    assert_eq!(both, CapDecision::Cap(7));
    assert_eq!(plan::decision(None, Some(&w.gate), "cust_1", 1_000), CapDecision::Cap(3));
    assert_eq!(plan::decision(None, None, "cust_1", 1_000), CapDecision::Allow);
}
