use ethertunnel::proto::frames::{ControlFrame, DenyCode, ErrorCode, Resource, Secret};
use ethertunnel::proto::limits::{MAX_CLAIM_ENTRIES, SESSION_DEAD_AFTER};
use ethertunnel::relay::auth::{Authenticator, MemoryAuth};
use ethertunnel::relay::cap::CapDecision;
use ethertunnel::relay::control::{ControlRun, RunAction, RunEvent, RunStage};
use ethertunnel::relay::entitlement::{
    Entitlement, EntitlementCache, EntitlementGate, KeygatePolicy,
};
use ethertunnel::relay::router::{Router, SessionHandle};
use ethertunnel::relay::session::{
    answer_hello, handle_claim, handle_release, handshake, list_owned, negotiate, on_frame,
    read_hello, revalidate, ClaimStep, ControlStage, FrameAction, ReadNext, ReadOutcome,
    SessionAction, SessionCtx, SessionEvent, SessionState,
};

fn hello(token: &str) -> ControlFrame {
    ControlFrame::Hello {
        token: Secret::from(token),
        agent_version: "test".into(),
        proto_min: 1,
        proto_max: 1,
    }
}

struct Relay {
    ctx: SessionCtx,
    router: Router,
    auth: MemoryAuth,
    uid: i64,
}

fn fixture() -> Relay {
    let mut auth = MemoryAuth::new();
    let uid = auth.add_user("mat", "etun_good");
    auth.grant_hostname(uid, "myapp.ethertunnel.com");
    auth.grant_port(uid, 20000);
    Relay { ctx: SessionCtx::new("test-relay".into()), router: Router::new(), auth, uid }
}

/// A session of `token`, once it was welcomed.
fn connect(r: &mut Relay, token: &str) -> SessionHandle {
    let id = r.ctx.next_id();
    let h = handshake(&r.auth, hello(token), r.ctx.version(), id);
    match h.reply {
        ControlFrame::Welcome { session_id, .. } => assert_eq!(session_id, id),
        other => panic!("expected Welcome, got {other:?}"),
    }
    SessionHandle::new(id, h.user.unwrap().user_id)
}

/// A session of `token` that was welcomed at instant 0.
fn live_run(r: &Relay, token: &str) -> ControlRun {
    let mut run = ControlRun::new(r.ctx.version(), 7, r.ctx.tick_period_ms(), 0);
    assert!(matches!(run.step(RunEvent::Ready, 0), RunAction::Read { ms: 10_000 }));
    assert!(matches!(run.step(RunEvent::Preamble, 0), RunAction::Wait));
    assert!(matches!(run.step(RunEvent::Frame(hello(token)), 0), RunAction::Authenticate));
    let who = r.auth.authenticate(&run.token);
    match run.step(RunEvent::Who(who), 0) {
        RunAction::Welcome(ControlFrame::Welcome { session_id, .. }) => assert_eq!(session_id, 7),
        _ => panic!("expected a welcome"),
    }
    run
}

fn claim(
    r: &mut Relay,
    h: &SessionHandle,
    hosts: Vec<String>,
    decision: CapDecision,
) -> (ControlFrame, Vec<(SessionHandle, ControlFrame)>) {
    match handle_claim(
        &mut r.auth,
        &mut r.router,
        h,
        &hosts,
        &vec![],
        None,
        &vec![],
        decision,
        1,
    ) {
        ClaimStep::Answer { reply, notices } => (reply, notices),
        ClaimStep::Bind(p) => panic!("no port was claimed, got {p}"),
    }
}

fn gate(max: i64, status: &str) -> EntitlementGate {
    let mut cache = EntitlementCache::open_in_memory().unwrap();
    cache
        .upsert(&Entitlement {
            external_ref: "mat".into(),
            customer_id: 1,
            max_tunnels: Some(max),
            status: status.into(),
            issued_at: 0,
            expires_at: i64::MAX,
            updated_at: 0,
        })
        .unwrap();
    EntitlementGate::new(
        cache,
        KeygatePolicy {
            product: "ethertunnel".into(),
            public_key_b64: String::new(),
            key_id: "k1".into(),
            staleness_ceiling_secs: 0,
            require_entitlement: false,
        },
    )
}

#[test]
fn hello_welcome_claim_granted_ping_pong() {
    let mut r = fixture();
    let h = connect(&mut r, "etun_good");
    let (reply, _) =
        claim(&mut r, &h, vec!["myapp.ethertunnel.com".into()], CapDecision::Allow);
    match reply {
        ControlFrame::Granted { hostnames, .. } => {
            assert_eq!(hostnames, vec!["myapp.ethertunnel.com".to_string()]);
        }
        other => panic!("expected Granted, got {other:?}"),
    }
    assert!(r.router.lookup_http("myapp.ethertunnel.com").is_some());

    match on_frame(ControlFrame::Ping { nonce: 99 }) {
        FrameAction::Reply(ControlFrame::Pong { nonce }) => assert_eq!(nonce, 99),
        _ => panic!("expected Pong"),
    }
}

#[test]
fn bad_token_is_denied() {
    let r = fixture();
    let h = handshake(&r.auth, hello("etun_wrong"), "test-relay", 1);
    match h.reply {
        ControlFrame::Denied { code, .. } => assert_eq!(code, DenyCode::AuthFailed),
        other => panic!("expected Denied, got {other:?}"),
    }
    assert!(h.user.is_none());
}

#[test]
fn claim_label_owned_by_another_user_is_denied() {
    let mut r = fixture();
    let eve = r.auth.add_user("eve", "etun_eve");
    r.auth.grant_hostname(eve, "taken.ethertunnel.com");
    let h = connect(&mut r, "etun_good");
    let (reply, _) =
        claim(&mut r, &h, vec!["taken.ethertunnel.com".into()], CapDecision::Allow);
    match reply {
        ControlFrame::Denied { code, message } => {
            assert_eq!(code, DenyCode::NotOwner);
            assert_eq!(message, "not authorized for taken.ethertunnel.com");
        }
        other => panic!("expected Denied, got {other:?}"),
    }
    // The route is not stolen from eve.
    assert!(r.router.lookup_http("taken.ethertunnel.com").is_none());
}

#[test]
fn claim_free_label_auto_registers_and_is_granted() {
    let mut r = fixture();
    let h = connect(&mut r, "etun_good");
    let (reply, _) =
        claim(&mut r, &h, vec!["brandnew.ethertunnel.com".into()], CapDecision::Allow);
    match reply {
        ControlFrame::Granted { hostnames, .. } => {
            assert_eq!(hostnames, vec!["brandnew.ethertunnel.com".to_string()]);
        }
        other => panic!("expected Granted, got {other:?}"),
    }
    assert!(r.router.lookup_http("brandnew.ethertunnel.com").is_some());
    // And it is now owned by the claimant.
    assert!(r.auth.owns_hostname(r.uid, "brandnew.ethertunnel.com"));
}

#[test]
fn claim_exceeding_cap_is_denied_and_label_not_registered() {
    let mut r = fixture();
    let gate = gate(1, "active");
    let h = connect(&mut r, "etun_good");
    // Two free labels in one claim -> projected 2 > cap 1 -> denied.
    let (reply, _) = claim(
        &mut r,
        &h,
        vec!["one.ethertunnel.com".into(), "two.ethertunnel.com".into()],
        gate.cap_for("mat", 1_000),
    );
    match reply {
        ControlFrame::Denied { code, .. } => assert_eq!(code, DenyCode::LimitExceeded),
        other => panic!("expected Denied(LimitExceeded), got {other:?}"),
    }
    // Neither label leaked into the registry: the cap check runs before
    // self-registration.
    assert!(!r.auth.owns_hostname(r.uid, "one.ethertunnel.com"));
    assert!(!r.auth.owns_hostname(r.uid, "two.ethertunnel.com"));
    assert!(r.router.lookup_http("one.ethertunnel.com").is_none());
}

#[test]
fn owned_cap_blocks_reclaim_after_disconnect() {
    let mut r = fixture();
    let gate = gate(1, "active");
    // The user already owns one label from a prior, now-closed session.
    r.auth.grant_hostname(r.uid, "first.ethertunnel.com");
    // A fresh session claims a DIFFERENT free label. Routed count is 0, so the
    // projected pre-check passes - but the owned-row count is already at the cap.
    let h = connect(&mut r, "etun_good");
    let (reply, _) = claim(
        &mut r,
        &h,
        vec!["second.ethertunnel.com".into()],
        gate.cap_for("mat", 1_000),
    );
    match reply {
        ControlFrame::Denied { code, message } => {
            assert_eq!(code, DenyCode::LimitExceeded);
            assert_eq!(message, "tunnel limit reached (1); upgrade your plan for more");
        }
        other => panic!("expected Denied(LimitExceeded), got {other:?}"),
    }
    // The second label never leaked into the owned set.
    assert!(!r.auth.owns_hostname(r.uid, "second.ethertunnel.com"));
}

#[test]
fn oversized_claim_is_denied() {
    let mut r = fixture();
    let h = connect(&mut r, "etun_good");
    // One past the cap; all bogus, but the cap check fires before ownership.
    let hostnames: Vec<String> =
        (0..=MAX_CLAIM_ENTRIES).map(|i| format!("h{i}.ethertunnel.com")).collect();
    let (reply, _) = claim(&mut r, &h, hostnames, CapDecision::Allow);
    match reply {
        ControlFrame::Denied { code, message } => {
            assert_eq!(code, DenyCode::ProtocolError);
            assert_eq!(message, "claim too large (max 256 entries)");
        }
        other => panic!("expected Denied(ProtocolError), got {other:?}"),
    }
    assert!(r.router.lookup_http("h0.ethertunnel.com").is_none());
}

#[test]
fn newest_session_supersedes_and_old_is_notified() {
    let mut r = fixture();
    let d1 = connect(&mut r, "etun_good");
    let (reply, _) =
        claim(&mut r, &d1, vec!["myapp.ethertunnel.com".into()], CapDecision::Allow);
    assert!(matches!(reply, ControlFrame::Granted { .. }));
    let d2 = connect(&mut r, "etun_good");
    let (reply, notices) =
        claim(&mut r, &d2, vec!["myapp.ethertunnel.com".into()], CapDecision::Allow);
    assert!(matches!(reply, ControlFrame::Granted { .. }));

    // d1 must be told it lost the hostname.
    assert_eq!(notices.len(), 1);
    assert_eq!(notices[0].0.session_id, d1.session_id);
    match &notices[0].1 {
        ControlFrame::Superseded { resource } => {
            assert_eq!(*resource, Resource::Host("myapp.ethertunnel.com".into()));
        }
        other => panic!("expected Superseded, got {other:?}"),
    }
    // The route now points at the newer session.
    assert_eq!(
        r.router.lookup_http("myapp.ethertunnel.com").unwrap().session_id,
        d2.session_id
    );
}

#[test]
fn revoked_token_terminates_live_session() {
    let mut r = fixture();
    r.ctx.set_token_revalidate_interval_secs(10);
    assert!(10 * 4 < SESSION_DEAD_AFTER);
    assert_eq!(r.ctx.tick_period_ms(), Some(10_000));
    let h = connect(&mut r, "etun_good");
    claim(&mut r, &h, vec!["myapp.ethertunnel.com".into()], CapDecision::Allow);
    assert!(r.router.lookup_http("myapp.ethertunnel.com").is_some());
    let mut run = live_run(&r, "etun_good");
    assert!(r.auth.revoke("etun_good"));
    // Heartbeats keep the dead-man from firing and put the tick off by nothing.
    for i in 1..=4 {
        let now = 2_400 * i;
        match run.step(RunEvent::Frame(ControlFrame::Ping { nonce: i }), now) {
            RunAction::Send(ControlFrame::Pong { nonce }) => assert_eq!(nonce, i),
            _ => panic!("expected a pong"),
        }
        match run.step(RunEvent::Ready, now) {
            RunAction::Read { ms } => assert_eq!(ms, 10_000 - now),
            _ => panic!("expected a read"),
        }
    }
    assert!(matches!(run.step(RunEvent::Ready, 10_000), RunAction::Recheck));
    let who = r.auth.authenticate(&run.token);
    let event = RunEvent::Rechecked { who, decision: CapDecision::Allow };
    match run.step(event, 10_000) {
        RunAction::Terminate(ControlFrame::Denied { code, message }) => {
            assert_eq!(code, DenyCode::AuthFailed);
            assert_eq!(message, "token revoked");
        }
        _ => panic!("expected a terminal denial"),
    }
    assert_eq!(run.stage, RunStage::Over);
    assert!(matches!(run.step(RunEvent::Ready, 10_000), RunAction::End));
    r.router.remove_session(h.session_id);
    assert!(r.router.lookup_http("myapp.ethertunnel.com").is_none());
}

#[test]
fn lapsed_entitlement_terminates_live_session() {
    let mut r = fixture();
    let h = connect(&mut r, "etun_good");
    let active = gate(5, "active").cap_for("mat", 1_000);
    let (reply, _) = claim(&mut r, &h, vec!["myapp.ethertunnel.com".into()], active);
    assert!(matches!(reply, ControlFrame::Granted { .. }));

    // The customer cancels.
    let lapsed = gate(5, "suspended").cap_for("mat", 1_000);
    let who = r.auth.authenticate("etun_good");
    match revalidate(&who, h.user_id, lapsed) {
        Some(ControlFrame::Denied { code, message }) => {
            assert_eq!(code, DenyCode::LimitExceeded);
            assert_eq!(message, "subscription lapsed or suspended");
        }
        other => panic!("expected Denied, got {other:?}"),
    }
}

#[test]
fn unrevoked_session_survives_revalidation_ticks() {
    let mut r = fixture();
    let h = connect(&mut r, "etun_good");
    claim(&mut r, &h, vec!["myapp.ethertunnel.com".into()], CapDecision::Allow);
    for _ in 0..5 {
        let who = r.auth.authenticate("etun_good");
        assert!(revalidate(&who, h.user_id, CapDecision::Cap(1)).is_none());
    }
    assert!(r.router.lookup_http("myapp.ethertunnel.com").is_some());
    // The token now belongs to someone else: over.
    let who = r.auth.authenticate("etun_good");
    assert!(revalidate(&who, h.user_id + 1, CapDecision::Allow).is_some());
}

#[test]
fn silent_session_hits_deadman() {
    assert_eq!(ControlStage::Live.read_timeout_secs(), SESSION_DEAD_AFTER);
    assert_eq!(ControlStage::Preamble.read_timeout_secs(), 10);
    assert_eq!(ControlStage::Live.after_read(ReadOutcome::TimedOut), ReadNext::End);
    assert_eq!(ControlStage::Hello.after_read(ReadOutcome::TimedOut), ReadNext::End);
    assert_eq!(ControlStage::Live.after_read(ReadOutcome::Eof), ReadNext::End);
    assert_eq!(ControlStage::Hello.after_read(ReadOutcome::Eof), ReadNext::Fail);
    assert_eq!(ControlStage::Live.after_read(ReadOutcome::Failed), ReadNext::Fail);
}

#[test]
fn handshake_ladder_denies_in_order() {
    assert_eq!(negotiate(1, 5), Some(2));
    assert_eq!(negotiate(1, 1), Some(1));
    assert_eq!(negotiate(3, 5), None);
    assert_eq!(negotiate(0, 0), None);
    match read_hello(ControlFrame::Goodbye) {
        Err(ControlFrame::Denied { code, message }) => {
            assert_eq!(code, DenyCode::ProtocolError);
            assert_eq!(message, "expected Hello");
        }
        _ => panic!("expected a denial"),
    }
    let future = ControlFrame::Hello {
        token: Secret::from("etun_good"),
        agent_version: "x".into(),
        proto_min: 3,
        proto_max: 9,
    };
    match read_hello(future) {
        Err(ControlFrame::Denied { code, message }) => {
            assert_eq!(code, DenyCode::VersionUnsupported);
            assert_eq!(message, "relay speaks protocol 2");
        }
        _ => panic!("expected a denial"),
    }
    assert!(matches!(
        answer_hello(&None, 1, "v", 3),
        ControlFrame::Denied { code: DenyCode::AuthFailed, .. }
    ));
}

#[test]
fn frames_are_sorted_out() {
    assert!(matches!(
        on_frame(hello("x")),
        FrameAction::Reply(ControlFrame::Error { code: ErrorCode::MalformedClaim, .. })
    ));
    assert!(matches!(on_frame(ControlFrame::Goodbye), FrameAction::End));
    assert!(matches!(on_frame(ControlFrame::ListOwned), FrameAction::ListOwned));
    assert!(matches!(on_frame(ControlFrame::Pong { nonce: 1 }), FrameAction::Ignore));
}

#[test]
fn ports_are_checked_then_bound() {
    let mut r = fixture();
    let h = connect(&mut r, "etun_good");
    let ports = vec![20000u16];
    let none: Vec<String> = vec![];
    let mut step = |range: Option<(u16, u16)>, ports: &Vec<u16>, binds: Vec<Option<String>>| {
        handle_claim(
            &mut r.auth,
            &mut r.router,
            &h,
            &none,
            ports,
            range,
            &binds,
            CapDecision::Allow,
            1,
        )
    };
    let code = |s: ClaimStep| match s {
        ClaimStep::Answer { reply: ControlFrame::Denied { code, message }, .. } => (code, message),
        _ => panic!("expected a denial"),
    };
    assert_eq!(
        code(step(None, &ports, vec![])),
        (DenyCode::PortNotReserved, "tcp tunnels are not enabled on this relay".into())
    );
    assert_eq!(
        code(step(Some((20000, 20999)), &vec![20001], vec![])),
        (DenyCode::PortNotReserved, "port 20001 not reserved".into())
    );
    assert!(matches!(step(Some((20000, 20999)), &ports, vec![]), ClaimStep::Bind(20000)));
    assert_eq!(
        code(step(Some((20000, 20999)), &ports, vec![Some("in use".into())])),
        (DenyCode::PortUnavailable, "port 20000 unavailable: in use".into())
    );
    match step(Some((20000, 20999)), &ports, vec![None]) {
        ClaimStep::Answer { reply: ControlFrame::Granted { tcp_ports, .. }, .. } => {
            assert_eq!(tcp_ports, vec![20000]);
        }
        _ => panic!("expected a grant"),
    }
    assert_eq!(r.router.lookup_tcp(20000).unwrap().session_id, h.session_id);
}

#[test]
fn release_and_list_cover_what_is_owned() {
    let mut r = fixture();
    let h = connect(&mut r, "etun_good");
    claim(&mut r, &h, vec!["MyApp.ethertunnel.com".into()], CapDecision::Allow);
    match list_owned(&r.auth, r.uid, CapDecision::Cap(4)) {
        ControlFrame::Owned { hostnames, tcp_ports, max_tunnels } => {
            assert_eq!(hostnames, vec!["myapp.ethertunnel.com".to_string()]);
            assert_eq!(tcp_ports, vec![20000]);
            assert_eq!(max_tunnels, Some(4));
        }
        other => panic!("expected Owned, got {other:?}"),
    }
    match handle_release(
        &mut r.auth,
        &mut r.router,
        r.uid,
        &vec!["MYAPP.ethertunnel.com".into(), "other.ethertunnel.com".into()],
        &vec![20000, 20001],
    ) {
        ControlFrame::Released { hostnames, tcp_ports } => {
            assert_eq!(hostnames, vec!["myapp.ethertunnel.com".to_string()]);
            assert_eq!(tcp_ports, vec![20000]);
        }
        other => panic!("expected Released, got {other:?}"),
    }
    assert!(r.router.lookup_http("myapp.ethertunnel.com").is_none());
    assert!(!r.auth.owns_port(r.uid, 20000));
}

#[test]
fn actor_takes_one_control_stream() {
    let mut s = SessionState::new();
    assert!(s.deadline_armed() && s.accepts_command());
    assert_eq!(s.step(SessionEvent::Inbound), SessionAction::StartControl);
    assert_eq!(s.step(SessionEvent::Deadline), SessionAction::Wait);
    assert_eq!(s.step(SessionEvent::Command), SessionAction::Hold);
    assert!(!s.accepts_command());
    assert_eq!(s.step(SessionEvent::Opened), SessionAction::HandOver);
    assert_eq!(s.step(SessionEvent::OpenFailed), SessionAction::Wait);
    assert_eq!(s.step(SessionEvent::Command), SessionAction::Hold);
    assert_eq!(s.step(SessionEvent::OpenFailed), SessionAction::Refuse);
    assert_eq!(s.step(SessionEvent::Inbound), SessionAction::Stop);
    let mut idle = SessionState::new();
    assert_eq!(idle.step(SessionEvent::Deadline), SessionAction::Stop);
    assert_eq!(idle.step(SessionEvent::Cancelled), SessionAction::Stop);
    assert_eq!(idle.step(SessionEvent::Closed), SessionAction::Stop);
}

#[test]
fn revalidation_interval_saturates() {
    let mut c = SessionCtx::new("v".into());
    assert_eq!(c.token_revalidate_interval(), 60_000);
    c.set_token_revalidate_interval_secs(u64::MAX);
    assert_eq!(c.token_revalidate_interval(), u64::MAX);
    c.set_token_revalidate_interval_secs(0);
    assert_eq!(c.tick_period_ms(), None);
    assert_eq!((c.next_id(), c.next_id()), (1, 2));
}

#[test]
fn claim_and_lookup() {
    let mut r = Router::new();
    let h = SessionHandle::new(1, 100);
    let superseded = r.claim(&h, &vec!["a.example.com".into()], &vec![20000]);
    assert!(superseded.is_empty());
    assert_eq!(r.lookup_http("a.example.com").unwrap().session_id, 1);
    assert_eq!(r.lookup_tcp(20000).unwrap().session_id, 1);
    assert!(r.lookup_http("b.example.com").is_none());
}

#[test]
fn newest_session_supersedes_and_old_disconnect_is_safe() {
    let mut r = Router::new();
    let h1 = SessionHandle::new(1, 100);
    let h2 = SessionHandle::new(2, 100); // same user, newer session

    r.claim(&h1, &vec!["a.example.com".into()], &vec![]);
    let superseded = r.claim(&h2, &vec!["a.example.com".into()], &vec![]);

    // h1 was superseded for that host.
    assert_eq!(superseded.len(), 1);
    assert_eq!(superseded[0].0.session_id, 1);
    assert_eq!(superseded[0].1, Resource::Host("a.example.com".into()));
    // Route now points at the newer session.
    assert_eq!(r.lookup_http("a.example.com").unwrap().session_id, 2);

    // The old session disconnecting must NOT evict the new owner.
    r.remove_session(1);
    assert_eq!(
        r.lookup_http("a.example.com").unwrap().session_id,
        2,
        "old session teardown wrongly evicted the new claim"
    );

    // The new session disconnecting clears it.
    r.remove_session(2);
    assert!(r.lookup_http("a.example.com").is_none());
}

#[test]
fn reclaim_same_session_is_noop() {
    let mut r = Router::new();
    let h = SessionHandle::new(1, 100);
    assert!(r.claim(&h, &vec!["a.example.com".into()], &vec![]).is_empty());
    assert!(
        r.claim(&h, &vec!["a.example.com".into()], &vec![]).is_empty(),
        "re-claiming an owned hostname should not supersede self"
    );
    assert_eq!(r.hostname_count(), 1);
}

#[test]
fn projected_count_and_eviction() {
    let mut r = Router::new();
    let h = SessionHandle::new(1, 100);
    r.claim(&h, &vec!["a.example.com".into()], &vec![20000]);
    assert_eq!(
        r.projected_tunnel_count(100, &vec!["a.example.com".into(), "b.example.com".into()], &vec![]),
        3
    );
    assert_eq!(r.projected_tunnel_count(7, &vec![], &vec![]), 0);
    let lost = r.evict_routes(&vec!["a.example.com".into(), "z".into()], &vec![20000]);
    assert_eq!(lost.len(), 2);
    assert_eq!(r.hostname_count(), 0);
}

#[test]
fn control_run_survives_a_valid_recheck() {
    let mut r = fixture();
    r.ctx.set_token_revalidate_interval_secs(10);
    let mut run = live_run(&r, "etun_good");
    assert!(matches!(run.step(RunEvent::Ready, 10_500), RunAction::Recheck));
    let who = r.auth.authenticate(&run.token);
    let event = RunEvent::Rechecked { who, decision: CapDecision::Cap(1) };
    assert!(matches!(run.step(event, 10_500), RunAction::Wait));
    assert_eq!(run.due, Some(20_500));
    // The daemon is still silent since instant 0.
    assert!(matches!(run.step(RunEvent::Ready, 15_000), RunAction::Read { ms: 5_500 }));
    run.due = None;
    assert!(matches!(run.step(RunEvent::Ready, 1_000 * SESSION_DEAD_AFTER), RunAction::End));
}

#[test]
fn control_run_ends_on_a_lapsed_plan() {
    let mut r = fixture();
    r.ctx.set_token_revalidate_interval_secs(1);
    let mut run = live_run(&r, "etun_good");
    assert!(matches!(run.step(RunEvent::Ready, 1_000), RunAction::Recheck));
    let who = r.auth.authenticate(&run.token);
    match run.step(RunEvent::Rechecked { who, decision: CapDecision::DenyAll }, 1_000) {
        RunAction::Terminate(ControlFrame::Denied { code, .. }) => {
            assert_eq!(code, DenyCode::LimitExceeded)
        }
        _ => panic!("expected a terminal denial"),
    }
}

#[test]
fn control_run_denies_in_the_handshake() {
    let mut run = ControlRun::new("test-relay", 1, None, 0);
    run.step(RunEvent::Preamble, 0);
    match run.step(RunEvent::Frame(ControlFrame::ListOwned), 0) {
        RunAction::Deny(ControlFrame::Denied { code, .. }) => {
            assert_eq!(code, DenyCode::ProtocolError)
        }
        _ => panic!("expected a denial"),
    }
    let mut run = ControlRun::new("test-relay", 1, None, 0);
    run.step(RunEvent::Preamble, 0);
    run.step(RunEvent::Frame(hello("nobody")), 0);
    match run.step(RunEvent::Who(None), 0) {
        RunAction::Deny(ControlFrame::Denied { code, .. }) => assert_eq!(code, DenyCode::AuthFailed),
        _ => panic!("expected a denial"),
    }
    // A claim before the preamble is no claim.
    let mut run = ControlRun::new("test-relay", 1, None, 0);
    let early = ControlFrame::Claim { hostnames: vec![], tcp_ports: vec![20000] };
    assert!(matches!(run.step(RunEvent::Frame(early), 0), RunAction::End));
    let mut run = ControlRun::new("test-relay", 1, None, 0);
    assert!(matches!(run.step(RunEvent::Ended(ReadOutcome::Eof), 0), RunAction::Fail));
    let mut run = ControlRun::new("test-relay", 1, None, 0);
    assert!(matches!(run.step(RunEvent::Ready, 10_000), RunAction::End));
}

#[test]
fn control_run_activates_before_a_claim() {
    let r = fixture();
    let mut run = live_run(&r, "etun_good");
    let ask = || ControlFrame::Claim { hostnames: vec!["a.b".into()], tcp_ports: vec![20000] };
    assert!(matches!(run.step(RunEvent::Frame(ask()), 1), RunAction::Activate));
    match run.step(RunEvent::Activated(None), 2) {
        RunAction::Claim { hostnames, tcp_ports } => {
            assert_eq!(hostnames, vec!["a.b".to_string()]);
            assert_eq!(tcp_ports, vec![20000]);
        }
        _ => panic!("expected the claim"),
    }
    assert!(matches!(run.step(RunEvent::Handled, 3), RunAction::Wait));
    assert_eq!((run.stage, run.since), (RunStage::Live, 3));
    assert!(matches!(run.step(RunEvent::Frame(ask()), 4), RunAction::Activate));
    let denial = ControlFrame::Denied { code: DenyCode::LimitExceeded, message: "full".into() };
    match run.step(RunEvent::Activated(Some(denial)), 5) {
        RunAction::Send(ControlFrame::Denied { message, .. }) => assert_eq!(message, "full"),
        _ => panic!("expected the denial"),
    }
    assert_eq!(run.stage, RunStage::Live);
}

#[test]
fn control_run_keeps_the_activation_while_anything_is_owned() {
    let r = fixture();
    let mut run = live_run(&r, "etun_good");
    let ask = || ControlFrame::Release { hostnames: vec!["a.b".into()], tcp_ports: vec![] };
    assert!(matches!(run.step(RunEvent::Frame(ask()), 1), RunAction::Release { .. }));
    assert!(matches!(run.step(RunEvent::Released { left: 1 }, 2), RunAction::Wait));
    assert!(matches!(run.step(RunEvent::Frame(ask()), 3), RunAction::Release { .. }));
    assert!(matches!(run.step(RunEvent::Released { left: 0 }, 4), RunAction::ReleaseActivation));
    assert!(matches!(run.step(RunEvent::Frame(ControlFrame::ListOwned), 5), RunAction::ListOwned));
    assert!(matches!(run.step(RunEvent::Handled, 6), RunAction::Wait));
    assert!(matches!(run.step(RunEvent::Frame(ControlFrame::Goodbye), 7), RunAction::End));
}

#[test]
fn new_users_leave_other_tokens_alone() {
    let mut auth = MemoryAuth::new();
    let a = auth.add_user("ann", "t1");
    let b = auth.add_user("bob", "t2");
    assert_ne!(a, b);
    assert_eq!(auth.authenticate("t1").unwrap().user_id, a);
    assert_eq!(auth.authenticate("t2").unwrap().user_id, b);
}
