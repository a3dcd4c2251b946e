use base64::Engine;
use ed25519_dalek::{Signer, SigningKey};
use ethertunnel::proto::frames::{ControlFrame, DenyCode};
use ethertunnel::relay::auth::Authenticator;
use ethertunnel::relay::cap::CapDecision;
use ethertunnel::relay::clock::{now_unix, unix_secs};
use ethertunnel::relay::entitlement::{
    canonical_bytes, verify_envelope, Entitlement, EntitlementCache, EntitlementGate,
    EntitlementPayload, KeygatePolicy, SignedEnvelope,
};
use ethertunnel::relay::keygate::{fetch_changes, sync, KeygateClient};
use ethertunnel::relay::registry::Registry;
use ethertunnel::relay::router::{Router, SessionHandle};
use ethertunnel::relay::timestamp::parse_unix_z;

fn encode(b: &[u8]) -> String {
    base64::engine::general_purpose::STANDARD.encode(b)
}

fn signer(seed: u8) -> (SigningKey, String) {
    let sk = SigningKey::from_bytes(&[seed; 32]);
    let pk = encode(&sk.verifying_key().to_bytes());
    (sk, pk)
}

// A far-future expiry: a near one would age past the staleness ceiling as the
// wall clock advances and flip Cap/DenyAll to Allow.
const PAYLOAD_EXPIRES: &str = "2099-01-01T06:00:00Z";

fn payload(max: i64) -> EntitlementPayload {
    EntitlementPayload {
        customer_id: 42,
        external_ref: Some("mat".to_string()),
        product: "ethertunnel".to_string(),
        entitlements: vec![("max_tunnels".to_string(), max.to_string())],
        status: "active".to_string(),
        issued_at: "2026-06-13T00:00:00Z".to_string(),
        expires_at: PAYLOAD_EXPIRES.to_string(),
        key_id: "kg-2026-06".to_string(),
    }
}

fn envelope(sk: &SigningKey, p: EntitlementPayload) -> SignedEnvelope {
    let sig = sk.sign(&canonical_bytes(&p));
    SignedEnvelope { signature: encode(&sig.to_bytes()), key_id: p.key_id.clone(), payload: p }
}

fn policy(pk: String, ceiling: i64, require: bool) -> KeygatePolicy {
    KeygatePolicy {
        product: "ethertunnel".into(),
        public_key_b64: pk,
        key_id: "kg-2026-06".into(),
        staleness_ceiling_secs: ceiling,
        require_entitlement: require,
    }
}

fn gate(pk: String, ceiling: i64, require: bool) -> EntitlementGate {
    EntitlementGate::new(
        EntitlementCache::open_in_memory().unwrap(),
        policy(pk, ceiling, require),
    )
}

#[test]
fn sign_verify_roundtrip_and_tamper() {
    let (sk, pk) = signer(3);
    let env = envelope(&sk, payload(10));
    assert!(verify_envelope(&env, &pk));

    let mut tampered = envelope(&sk, payload(10));
    tampered.payload.entitlements = vec![("max_tunnels".to_string(), "9999".to_string())];
    assert!(!verify_envelope(&tampered, &pk), "tamper must fail");

    let (_other, other_pk) = signer(9);
    assert!(!verify_envelope(&env, &other_pk), "wrong key must fail");
}

#[test]
fn verification_refuses_what_it_cannot_decode() {
    let (sk, pk) = signer(4);
    let mut env = envelope(&sk, payload(1));
    assert!(!verify_envelope(&env, "not base64!"));
    assert!(!verify_envelope(&env, &encode(&[1, 2, 3])));
    env.signature = "%%%".into();
    assert!(!verify_envelope(&env, &pk));
    env.signature = encode(&[0; 63]);
    assert!(!verify_envelope(&env, &pk));
}

#[test]
fn canonical_text_is_compact_and_ordered() {
    let mut p = payload(3);
    p.entitlements.push(("alpha".into(), "true".into()));
    let text = String::from_utf8(canonical_bytes(&p)).unwrap();
    assert_eq!(
        text,
        "{\"customer_id\":42,\"entitlements\":{\"alpha\":true,\"max_tunnels\":3},\
         \"expires_at\":\"2099-01-01T06:00:00Z\",\"external_ref\":\"mat\",\
         \"issued_at\":\"2026-06-13T00:00:00Z\",\"key_id\":\"kg-2026-06\",\
         \"product\":\"ethertunnel\",\"status\":\"active\"}"
    );
    p.external_ref = None;
    p.entitlements = vec![];
    p.status = "a\"b\n".into();
    let text = String::from_utf8(canonical_bytes(&p)).unwrap();
    assert!(text.starts_with("{\"customer_id\":42,\"entitlements\":{},"));
    assert!(text.contains("\"external_ref\":null,"));
    assert!(text.ends_with("\"status\":\"a\\\"b\\n\"}"));
}

#[test]
fn parse_timestamps() {
    assert_eq!(parse_unix_z("1970-01-01T00:00:00Z"), Some(0));
    assert_eq!(parse_unix_z("2000-01-01T00:00:00Z"), Some(946_684_800));
    assert_eq!(parse_unix_z("2026-06-13T00:00:00Z"), Some(1_781_308_800));
    assert_eq!(parse_unix_z("not-a-time"), None);
    assert_eq!(parse_unix_z("2026-06-13 00:00:00Z"), None); // missing T
    assert_eq!(parse_unix_z("2026-06-13T00:00:00"), None); // missing Z
}

#[test]
fn timestamps_know_leap_years() {
    assert_eq!(parse_unix_z("2000-02-29T00:00:00Z"), Some(951_782_400));
    assert_eq!(parse_unix_z("2000-03-01T00:00:01Z"), Some(951_868_801));
    assert_eq!(parse_unix_z("1969-12-31T23:59:59Z"), Some(-1));
}

#[test]
fn ingest_caps_and_rejects() {
    let (sk, pk) = signer(7);
    let mut gate = gate(pk, 259_200, false);

    let env = envelope(&sk, payload(3));
    let (ok, bad) = gate.ingest(std::slice::from_ref(&env), now_unix());
    assert_eq!((ok, bad), (1, 0));

    // Fresh entry -> cap of 3.
    assert_eq!(gate.cap_for("mat", now_unix()), CapDecision::Cap(3));
    // Unknown user -> allow (require_entitlement off).
    assert_eq!(gate.cap_for("ghost", now_unix()), CapDecision::Allow);

    // A wrong-key envelope is rejected.
    let (bad_sk, _) = signer(11);
    let forged = envelope(&bad_sk, payload(9999));
    let (ok2, bad2) = gate.ingest(std::slice::from_ref(&forged), now_unix());
    assert_eq!((ok2, bad2), (0, 1));
    // Cache still holds the genuine value.
    assert_eq!(gate.cap_for("mat", now_unix()), CapDecision::Cap(3));
}

#[test]
fn ingest_wants_product_key_and_reference() {
    let (sk, pk) = signer(8);
    let mut gate = gate(pk, 259_200, false);
    let mut product = payload(1);
    product.product = "other".into();
    let mut key = payload(1);
    key.key_id = "kg-2020-01".into();
    let mut nobody = payload(1);
    nobody.external_ref = None;
    let batch =
        vec![envelope(&sk, product), envelope(&sk, key), envelope(&sk, nobody), envelope(&sk, payload(2))];
    assert_eq!(gate.ingest(&batch, 5), (1, 3));
    assert_eq!(gate.cache().all_external_refs().unwrap(), vec!["mat".to_string()]);
    let row = gate.cache().get("mat").unwrap().unwrap();
    assert_eq!(row.max_tunnels, Some(2));
    assert_eq!(row.customer_id, 42);
    assert_eq!(row.updated_at, 5);
}

#[test]
fn staleness_ceiling_and_status() {
    let (sk, pk) = signer(5);
    let mut gate1 = gate(pk, 100, false);
    let env = envelope(&sk, payload(5));
    gate1.ingest(std::slice::from_ref(&env), now_unix());

    let expires = parse_unix_z(PAYLOAD_EXPIRES).unwrap();
    assert_eq!(gate1.cap_for("mat", expires + 50), CapDecision::Cap(5)); // within ceiling
    assert_eq!(gate1.cap_for("mat", expires + 200), CapDecision::Allow); // past ceiling

    // require_entitlement flips the missing case to DenyAll.
    let gate2 = gate(encode(&sk.verifying_key().to_bytes()), 100, true);
    assert_eq!(gate2.cap_for("nobody", now_unix()), CapDecision::DenyAll);
}

#[test]
fn require_entitlement_fail_closed_vs_open() {
    let (sk, pk) = signer(21);
    let mut strict = gate(pk.clone(), 259_200, true);

    // (1) require_entitlement=true + missing entitlement => DenyAll.
    assert_eq!(strict.cap_for("nobody", now_unix()), CapDecision::DenyAll);

    // (2) require_entitlement=true + cached SUSPENDED => DenyAll.
    let mut sus = payload(10);
    sus.status = "suspended".into();
    strict.ingest(std::slice::from_ref(&envelope(&sk, sus)), now_unix());
    assert_eq!(strict.cap_for("mat", now_unix()), CapDecision::DenyAll);

    // (2b) a CANCELLED customer's last envelope ages past the ceiling.
    let mut cancelled = payload(5);
    cancelled.external_ref = Some("gone".into());
    strict.ingest(std::slice::from_ref(&envelope(&sk, cancelled)), now_unix());
    let expires = parse_unix_z(PAYLOAD_EXPIRES).unwrap();
    assert_eq!(
        strict.cap_for("gone", expires + 259_200 + 10),
        CapDecision::DenyAll,
        "a cancelled customer whose envelopes stopped must deny once stale"
    );

    // (3) require_entitlement=false + missing entitlement => Allow.
    let open = gate(pk, 259_200, false);
    assert_eq!(open.cap_for("nobody", now_unix()), CapDecision::Allow);
}

#[test]
fn suspended_denies_all() {
    let (sk, pk) = signer(13);
    let mut gate = gate(pk, 259_200, false);
    let mut p = payload(10);
    p.status = "suspended".into();
    let env = envelope(&sk, p);
    gate.ingest(std::slice::from_ref(&env), now_unix());
    assert_eq!(gate.cap_for("mat", now_unix()), CapDecision::DenyAll);
}

#[test]
fn downgrade_ingest_prunes_and_evicts_routes() {
    let (sk, pk) = signer(31);
    let mut gate = gate(pk, 259_200, false);

    // Registry: user "mat" owns three labels with increasing created_at.
    let mut registry = Registry::open_in_memory("ethertunnel.com").unwrap();
    let mat = registry.add_user("mat").unwrap();
    for label in ["a", "b", "c"] {
        registry.claim_label(mat, label).unwrap();
    }
    // Router: the newest two ("b", "c") on a live session, so eviction has
    // something to tear down + notify.
    let mut router = Router::new();
    let handle = SessionHandle::new(7, mat);
    router.claim(
        &handle,
        &vec!["b.ethertunnel.com".into(), "c.ethertunnel.com".into()],
        &vec![],
    );
    let mut sent = Vec::new();

    // First ingest at cap 3: no prune (owned == cap).
    let env3 = envelope(&sk, payload(3));
    gate.ingest_live(&mut registry, &mut router, &mut sent, std::slice::from_ref(&env3), now_unix());
    assert_eq!(registry.count_owned_resources(mat).unwrap(), 3);
    assert!(sent.is_empty());

    // Downgrade to cap 1: prune the two newest owned labels, keep the oldest.
    let env1 = envelope(&sk, payload(1));
    let (ok, _) = gate.ingest_live(
        &mut registry,
        &mut router,
        &mut sent,
        std::slice::from_ref(&env1),
        now_unix(),
    );
    assert_eq!(ok, 1);
    assert_eq!(registry.count_owned_resources(mat).unwrap(), 1);
    assert!(registry.owns_hostname(mat, "a.ethertunnel.com"));
    assert!(!registry.owns_hostname(mat, "b.ethertunnel.com"));
    assert!(!registry.owns_hostname(mat, "c.ethertunnel.com"));
    // Both routed labels were evicted.
    assert!(router.lookup_http("b.ethertunnel.com").is_none());
    assert!(router.lookup_http("c.ethertunnel.com").is_none());
    // The session is sent a Denied for each pruned-and-routed label.
    let denied = sent
        .iter()
        .filter(|(h, f)| {
            h.session_id == 7
                && matches!(f, ControlFrame::Denied { code: DenyCode::LimitExceeded, .. })
        })
        .count();
    assert_eq!(denied, 2, "each pruned live route must be Denied'd");
}

#[test]
fn reconcile_all_prunes_every_cached_user() {
    let (_, pk) = signer(40);
    let mut cache = EntitlementCache::open_in_memory().unwrap();
    for (name, status, max) in [("mat", "suspended", 9), ("eve", "active", 1)] {
        cache
            .upsert(&Entitlement {
                external_ref: name.into(),
                customer_id: 1,
                max_tunnels: Some(max),
                status: status.into(),
                issued_at: 0,
                expires_at: 100,
                updated_at: 0,
            })
            .unwrap();
    }
    let gate = EntitlementGate::new(cache, policy(pk, 0, false));
    let mut registry = Registry::open_in_memory("example.com").unwrap();
    let mut router = Router::new();
    let mut sent = Vec::new();
    let mat = registry.add_user("mat").unwrap();
    let eve = registry.add_user("eve").unwrap();
    for (u, l) in [(mat, "m1"), (mat, "m2"), (eve, "e1"), (eve, "e2")] {
        registry.claim_label(u, l).unwrap();
    }
    assert_eq!(gate.reconcile_all(&mut registry, &mut router, &mut sent, 50), 3);
    assert_eq!(registry.count_owned_resources(mat).unwrap(), 0);
    assert_eq!(registry.count_owned_resources(eve).unwrap(), 1);
    assert_eq!(gate.reconcile_user(&mut registry, &mut router, &mut sent, "ghost", 50), 0);
}

#[test]
fn clock_saturates() {
    assert_eq!(unix_secs(None), 0);
    assert_eq!(unix_secs(Some(7)), 7);
    assert!(now_unix() > 1_700_000_000);
}

#[test]
fn pulls_are_addressed_and_read() {
    let c = KeygateClient::new("https://k.example.com//".into(), "tok".into(), "etun".into());
    assert_eq!(
        c.changes_url(-5),
        "https://k.example.com/v1/entitlements/changes?product=etun&since=-5"
    );
    assert_eq!(c.authorization(), "Bearer tok");
    assert_eq!(fetch_changes(Err("down".into())).unwrap_err(), "down");
    assert_eq!(
        fetch_changes(Ok((503, "503 Service Unavailable".into(), Ok(vec![])))).unwrap_err(),
        "keygate changes returned 503 Service Unavailable"
    );
    assert_eq!(fetch_changes(Ok((200, "200 OK".into(), Err("eof".into())))).unwrap_err(), "eof");
    assert!(fetch_changes(Ok((200, "200 OK".into(), Ok(vec![])))).unwrap().is_empty());
}

#[test]
fn a_round_takes_in_then_sweeps() {
    let (sk, pk) = signer(50);
    let mut gate = gate(pk, 259_200, false);
    let mut registry = Registry::open_in_memory("example.com").unwrap();
    let mut router = Router::new();
    let mut sent = Vec::new();
    let mat = registry.add_user("mat").unwrap();
    registry.claim_label(mat, "a").unwrap();
    let env = envelope(&sk, payload(1));
    let r = sync(&mut gate, &mut registry, &mut router, &mut sent, Ok(vec![env]), 10);
    assert_eq!((r.pulled, r.pruned), (Ok((1, 0)), 0));
    // A claim that slipped in since is swept even when the next pull fails.
    registry.claim_label(mat, "b").unwrap();
    let r = sync(&mut gate, &mut registry, &mut router, &mut sent, Err("down".into()), 20);
    assert_eq!((r.pulled, r.pruned), (Err("down".to_string()), 1));
    assert_eq!(gate.cap_for("mat", 20), CapDecision::Cap(1));
}
