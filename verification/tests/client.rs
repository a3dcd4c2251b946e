use ethertunnel::client::commands::{
    add, announce, list, logged_in, print_remote_reconcile, relay_creds, release_report,
    release_target, remove, report_released, resolve_relay, status, tunnel_resource, used_default,
    DEFAULT_RELAY,
};
use ethertunnel::client::config::{FileConfig, Protocol, TunnelConfig};
use ethertunnel::client::control::{
    list_owned, list_request, open, release, release_request, OwnedSet, Reply,
};
use ethertunnel::client::creds::{CredFile, TokenEnv};
use ethertunnel::client::doctor::{conclude, run, Probes};
use ethertunnel::client::login::{
    pick_token, tls_info, tls_probe, verify, TlsInfo, TokenSource, VerifyOk,
};
use ethertunnel::client::paths::{config_dir, latest_log, log_file_basename};
use ethertunnel::client::proxy::{
    forward_http, forward_tcp, write_http, Forward, Inbound, LocalConnect, LocalTarget,
};
use ethertunnel::client::service::{install_plan, plist_text, service_command, unit_text};
use ethertunnel::client::status::StatusSnapshot;
use ethertunnel::client::supervisor::{
    begin_attempt, connect_host, connect_url, hello_frame, jittered, pause_ms, reader_goes_on,
    Act, Attempt, ClientConfig, ConnError, ConnState, DaemonStatus, Happened, HttpTunnel, Order,
    Pacer, Phase, Stage, Supervisor, TcpTunnel, Turn,
};
use ethertunnel::client::tls::{custom_roots, relay_server_name, trusted_roots, TrustMode};
use ethertunnel::proto::codec::CodecError;
use ethertunnel::proto::frames::{ControlFrame, DenyCode, PeerIp, StreamHeader};

#[test]
fn default_relay_is_hosted_domain() {
    assert_eq!(DEFAULT_RELAY, "ethertunnel.com");
}

#[test]
fn relay_precedence_arg_beats_config_and_default() {
    // Explicit --relay always wins.
    assert_eq!(
        resolve_relay(Some("arg.example".to_owned()), "cfg.example"),
        "arg.example"
    );
    // A configured relay beats the baked-in default.
    assert_eq!(resolve_relay(None, "cfg.example"), "cfg.example");
    // Nothing set falls back to the hosted default.
    assert_eq!(resolve_relay(None, ""), DEFAULT_RELAY);
}

#[test]
fn default_is_only_used_when_nothing_is_set() {
    assert!(used_default(&None, ""));
    assert!(!used_default(&None, "cfg.example"));
    assert!(!used_default(&Some("x".into()), ""));
}

fn tunnel(name: &str, protocol: Protocol, public_port: Option<u16>) -> TunnelConfig {
    TunnelConfig {
        name: name.into(),
        port: 8080,
        local_host: "127.0.0.1".into(),
        protocol,
        hostname: None,
        public_port,
    }
}

fn config(tunnels: Vec<TunnelConfig>) -> FileConfig {
    FileConfig { relay: "ethertunnel.com".into(), relay_ca: None, tunnels }
}

#[test]
fn fqdn_uses_hostname_then_name() {
    let mut cfg = config(vec![]);
    let t = tunnel("demo", Protocol::Http, None);
    assert_eq!(cfg.fqdn(&t), "demo.ethertunnel.com");
    let t2 = TunnelConfig { hostname: Some("api".into()), ..t.clone() };
    assert_eq!(cfg.fqdn(&t2), "api.ethertunnel.com");
    cfg.tunnels.push(t);
    assert!(cfg.tunnel("demo").is_some());
}

#[test]
fn tcp_without_public_port_errors() {
    let cfg = FileConfig {
        relay: "ethertunnel.com".into(),
        relay_ca: None,
        tunnels: vec![TunnelConfig {
            name: "ssh".into(),
            port: 22,
            local_host: "127.0.0.1".into(),
            protocol: Protocol::Tcp,
            hostname: None,
            public_port: None,
        }],
    };
    assert!(cfg.to_client_config("etun_x".into(), TrustMode::System).is_err());
}

#[test]
fn file_config_becomes_client_config() {
    let cfg = config(vec![
        tunnel("demo", Protocol::Http, None),
        tunnel("ssh", Protocol::Tcp, Some(20001)),
    ]);
    let c = cfg.to_client_config("etun_x".into(), TrustMode::System).unwrap();
    assert_eq!(c.relay_host, "ethertunnel.com");
    assert_eq!(c.claim_hostnames(), vec!["demo.ethertunnel.com".to_string()]);
    assert_eq!(c.claim_ports(), vec![20001]);
    assert!(matches!(
        c.claim_frame(),
        Some(ControlFrame::Claim { hostnames, tcp_ports })
            if hostnames.len() == 1 && tcp_ports == vec![20001]
    ));
    let routes = c.routes();
    let peer = PeerIp::V4([1, 2, 3, 4]);
    let http = |host: &str| StreamHeader::Http {
        host: host.into(),
        peer_ip: peer,
        peer_port: 1,
    };
    assert!(matches!(
        routes.handle_inbound(&http("demo.ethertunnel.com")),
        Inbound::Http(t) if t.port == 8080
    ));
    assert!(matches!(
        routes.handle_inbound(&http("x.ethertunnel.com")),
        Inbound::Answer(a) if a.starts_with("HTTP/1.1 502 ")
    ));
    let tcp = |p: u16| StreamHeader::Tcp { port: p, peer_ip: peer, peer_port: 1 };
    assert!(matches!(routes.handle_inbound(&tcp(20001)), Inbound::Tcp(_)));
    assert!(matches!(routes.handle_inbound(&tcp(20002)), Inbound::Close));
}

#[test]
fn custom_root_is_read_from_pem() {
    let cfg = FileConfig { relay_ca: Some("ca.pem".into()), ..config(vec![]) };
    let cert = rcgen::generate_simple_self_signed(vec!["x".to_owned()]).unwrap().cert;
    match cfg.trust_mode(cert.pem().as_bytes()) {
        Ok(TrustMode::CustomRoot(der)) => assert_eq!(der, cert.der().to_vec()),
        _ => panic!("the certificate is the custom root"),
    }
    assert!(cfg.trust_mode(b"nothing").is_err());
    assert!(matches!(config(vec![]).trust_mode(b""), Ok(TrustMode::System)));
}

#[test]
fn local_service_down_is_answered() {
    let t = LocalTarget { host: "127.0.0.1".into(), port: 8080 };
    assert!(matches!(forward_http(&t, LocalConnect::Connected), Forward::Splice));
    assert!(matches!(
        forward_http(&t, LocalConnect::Refused),
        Forward::Answer(a) if a.starts_with("HTTP/1.1 502 ")
    ));
    assert!(matches!(
        forward_http(&t, LocalConnect::TimedOut),
        Forward::Answer(a) if a.starts_with("HTTP/1.1 504 ")
    ));
    assert!(matches!(forward_tcp(LocalConnect::Connected), Forward::Splice));
    assert!(matches!(forward_tcp(LocalConnect::Refused), Forward::Close));
    let page = write_http(502, "Bad Gateway", "tag", "body");
    assert!(page.contains("\r\nContent-Length: 4\r\n"));
    assert!(page.ends_with("\r\n\r\nbody"));
}

fn client(hosts: &[&str]) -> ClientConfig {
    ClientConfig {
        relay_host: "example.com".into(),
        relay_addr: None,
        token: "etun_x".into(),
        http_tunnels: hosts
            .iter()
            .map(|h| HttpTunnel {
                hostname: h.to_string(),
                local_host: "127.0.0.1".into(),
                local_port: 80,
            })
            .collect(),
        tcp_tunnels: vec![TcpTunnel {
            public_port: 20001,
            local_host: "127.0.0.1".into(),
            local_port: 22,
        }],
        trust: TrustMode::System,
    }
}

#[test]
fn attempt_connects_authenticates_and_claims() {
    let cfg = client(&["a.example.com"]);
    let mut status = DaemonStatus::default();
    let mut a = Attempt::new();
    // Resolve, dial, trust, name, tls, upgrade.
    for _ in 0..6 {
        assert!(matches!(a.step(Happened::Good, &cfg, "1.0", &mut status), Act::Work));
    }
    assert!(matches!(
        a.step(Happened::Good, &cfg, "1.0", &mut status),
        Act::SendHello(ControlFrame::Hello { agent_version, .. }) if agent_version == "1.0"
    ));
    let welcome = ControlFrame::Welcome { proto: 1, server_version: "r".into(), session_id: 7 };
    assert!(matches!(
        a.step(Happened::Reply(welcome), &cfg, "1.0", &mut status),
        Act::SendClaim(ControlFrame::Claim { .. })
    ));
    let granted = ControlFrame::Granted {
        hostnames: vec!["a.example.com".into()],
        tcp_ports: vec![20001],
    };
    assert!(matches!(
        a.step(Happened::Reply(granted), &cfg, "1.0", &mut status),
        Act::GoLive
    ));
    assert_eq!(status.state, ConnState::Connected);
    assert_eq!(status.granted_hostnames, vec!["a.example.com".to_string()]);
    assert_eq!(status.granted_ports, vec![20001]);
    assert!(matches!(a.step(Happened::Beat, &cfg, "1.0", &mut status), Act::Ping(_)));
    assert!(matches!(
        a.step(Happened::Dead, &cfg, "1.0", &mut status),
        Act::End(ConnError::Disconnected)
    ));
}

#[test]
fn bad_token_ends_with_an_auth_error() {
    let cfg = client(&[]);
    let mut status = DaemonStatus::default();
    let mut a = Attempt { stage: Stage::Hello, nonce: 0 };
    let denied = ControlFrame::Denied { code: DenyCode::AuthFailed, message: "no".into() };
    match a.step(Happened::Reply(denied), &cfg, "1", &mut status) {
        Act::End(e) => {
            assert!(e.is_auth());
            assert_eq!(e.message(), "authentication failed");
        }
        _ => panic!("a refused token ends the attempt"),
    }
    let mut b = Attempt { stage: Stage::Dial, nonce: 0 };
    assert!(matches!(
        b.step(Happened::Failed("refused".into()), &cfg, "1", &mut status),
        Act::End(ConnError::Io(why)) if why == "refused"
    ));
    assert!(!ConnError::Setup("x".into()).is_auth());
}

#[test]
fn backoff_doubles_to_a_minute_and_resets() {
    let mut status = DaemonStatus::default();
    let mut p = Pacer::new();
    let waits: Vec<u64> = (0..8).map(|_| p.after_attempt(false, 0, &mut status)).collect();
    assert_eq!(waits, vec![1, 2, 4, 8, 16, 32, 60, 60]);
    assert_eq!(status.reconnects, 8);
    assert_eq!(p.after_attempt(false, 31_000_000_000, &mut status), 1);
    assert_eq!(p.after_attempt(true, 0, &mut status), 300);
    assert_eq!(status.state, ConnState::AuthFailed);
    let mut sup = Supervisor::new();
    assert_eq!(sup.step(Turn::Ready, false, &mut status), Order::Attempt);
    let ended = Turn::Ended { auth_failed: false, lived_ns: 0 };
    assert_eq!(sup.step(ended, false, &mut status), Order::Pause { secs: 1 });
    assert_eq!(sup.step(Turn::Ready, false, &mut status), Order::Attempt);
    assert_eq!(sup.step(ended, false, &mut status), Order::Pause { secs: 2 });
    assert_eq!(status.reconnects, 2);
    assert_eq!(sup.step(Turn::Ready, false, &mut status), Order::Attempt);
    status.granted_ports = vec![20000];
    assert_eq!(sup.step(ended, true, &mut status), Order::Stop);
    assert!(status.granted_ports.is_empty());
    assert_eq!(sup.step(Turn::Ready, false, &mut status), Order::Stop);
    let mut sup = Supervisor::new();
    assert_eq!(sup.step(Turn::Ready, true, &mut status), Order::Stop);
    let mut sup = Supervisor::new();
    sup.step(Turn::Ready, false, &mut status);
    assert_eq!(sup.step(Turn::Cancelled, false, &mut status), Order::Stop);
    assert_eq!(sup.phase, Phase::Stopped);
    begin_attempt(&mut status);
    assert_eq!(status.state, ConnState::Connecting);
    assert_eq!(jittered(2, 1234), 2000 + 1234 % 500);
    let ms = pause_ms(3);
    assert!((3000..3500).contains(&ms));
}

#[test]
fn relay_names_and_hello() {
    assert_eq!(connect_host("example.com"), "connect.example.com");
    assert_eq!(connect_url("connect.example.com"), "wss://connect.example.com/connect");
    assert!(matches!(
        hello_frame("etun_x", "9"),
        ControlFrame::Hello { token, proto_min: 1, proto_max: 2, .. }
            if token.expose() == "etun_x"
    ));
    assert!(reader_goes_on(&ControlFrame::Pong { nonce: 1 }));
    assert!(!reader_goes_on(&ControlFrame::Shutdown { reason: "x".into() }));
}

#[test]
fn control_replies_are_read() {
    let welcome =
        |proto: u16| Reply::Frame(ControlFrame::Welcome { proto, server_version: "r".into(), session_id: 7 });
    assert_eq!(open(&welcome(1)), Ok((7, 1)));
    assert!(open(&Reply::TimedOut).is_err());
    assert!(open(&Reply::Failed(CodecError::BadMagic)).is_err());
    assert!(open(&Reply::Frame(ControlFrame::Goodbye)).is_err());
    assert!(matches!(verify(&welcome(2)), Ok(VerifyOk { session_id: 7, proto: 2 })));
    assert!(list_request(1).is_err());
    assert!(matches!(list_request(2), Ok(ControlFrame::ListOwned)));
    assert!(matches!(
        release_request(2, vec!["a".into()], vec![1]),
        Ok(ControlFrame::Release { .. })
    ));
    let owned = ControlFrame::Owned {
        hostnames: vec!["a".into()],
        tcp_ports: vec![1],
        max_tunnels: None,
    };
    assert_eq!(list_owned(Reply::Frame(owned)).unwrap().hostnames, vec!["a".to_string()]);
    let freed = ControlFrame::Released { hostnames: vec![], tcp_ports: vec![9] };
    assert_eq!(release(Reply::Frame(freed)).unwrap().tcp_ports, vec![9]);
    let denied = ControlFrame::Denied { code: DenyCode::NotOwner, message: "m".into() };
    assert!(list_owned(Reply::Frame(denied)).is_err());
    assert!(release(Reply::TimedOut).is_err());
}

#[test]
fn certificate_days_are_counted() {
    let day = 86_400;
    assert!(matches!(
        tls_info(10 * day + 5, 0),
        TlsInfo { days_remaining: 10, expired: false }
    ));
    assert!(tls_info(0, 1).expired);
    let cert = rcgen::generate_simple_self_signed(vec!["x".to_owned()]).unwrap().cert;
    let der = cert.der().to_vec();
    assert!(!tls_probe(Some(der.as_slice()), 0).unwrap().expired);
    assert!(tls_probe(Some(b"junk".as_slice()), 0).is_err());
    assert!(tls_probe(None, 0).is_err());
}

#[test]
fn tokens_are_trimmed_and_required() {
    assert_eq!(pick_token(TokenSource::Stdin(" etun_a\n".into())), Ok("etun_a".to_string()));
    assert_eq!(pick_token(TokenSource::Prompt("etun_b".into())), Ok("etun_b".to_string()));
    assert!(pick_token(TokenSource::Missing).is_err());
}

#[test]
fn credentials_are_resolved_in_order() {
    let mut c = CredFile::new();
    c.store("example.com", "etun_1");
    c.store("example.com", "etun_2");
    let env = |file: Option<&str>, contents: Option<&str>, token: Option<&str>| TokenEnv {
        file: file.map(|s| s.to_string()),
        contents: contents.map(|s| s.to_string()),
        token: token.map(|s| s.to_string()),
    };
    assert_eq!(c.resolve("example.com", &env(None, None, None)).as_deref(), Some("etun_2"));
    assert_eq!(c.resolve("other.com", &env(None, None, None)), None);
    assert_eq!(
        c.resolve("example.com", &env(None, None, Some("etun_env"))).as_deref(),
        Some("etun_env")
    );
    assert_eq!(
        c.resolve("example.com", &env(Some("f"), Some("etun_file\n"), Some("etun_env")))
            .as_deref(),
        Some("etun_file")
    );
}

#[test]
fn tunnels_are_added_replaced_and_removed() {
    let mut cfg = FileConfig::default();
    assert!(logged_in(&mut cfg, "example.com"));
    assert!(!logged_in(&mut cfg, "other.com"));
    assert_eq!(cfg.relay, "example.com");
    let said = add(&mut cfg, "demo".into(), 8080, None, None, None);
    assert!(said.contains("demo"));
    assert_eq!(cfg.tunnel("demo").unwrap().local_host, "127.0.0.1");
    add(&mut cfg, "demo".into(), 9090, None, None, Some("::1".into()));
    assert_eq!(cfg.tunnels.len(), 1);
    assert_eq!(cfg.tunnel("demo").unwrap().port, 9090);
    add(&mut cfg, "ssh".into(), 22, None, Some(20001), None);
    assert_eq!(cfg.tunnel("ssh").unwrap().protocol, Protocol::Tcp);
    assert_eq!(list(&cfg).len(), 2);
    let ssh = cfg.tunnel("ssh").unwrap().clone();
    assert_eq!(tunnel_resource(&cfg, &ssh), (vec![], vec![20001]));
    assert_eq!(
        release_target(&cfg, "demo"),
        (vec!["demo.example.com".to_string()], vec![])
    );
    assert_eq!(release_target(&cfg, "a.b"), (vec!["a.b".to_string()], vec![]));
    assert_eq!(release_target(&cfg, "x"), (vec!["x.example.com".to_string()], vec![]));
    assert_eq!(remove(&mut cfg, "ssh"), Ok((vec![], vec![20001])));
    assert!(remove(&mut cfg, "ssh").is_err());
    assert!(cfg.tunnel("ssh").is_none());
    assert_eq!(list(&config(vec![])).len(), 1);
}

#[test]
fn credentials_need_a_relay_and_a_token() {
    let cfg = config(vec![]);
    assert_eq!(
        relay_creds(&cfg, Some("t".into())),
        Ok(("ethertunnel.com".to_string(), "t".to_string()))
    );
    assert!(relay_creds(&cfg, None).is_err());
    assert!(relay_creds(&FileConfig::default(), Some("t".into())).is_err());
}

#[test]
fn remote_state_is_reported() {
    let cfg = config(vec![tunnel("demo", Protocol::Http, None)]);
    let owned = OwnedSet {
        hostnames: vec!["demo.ethertunnel.com".into(), "old.ethertunnel.com".into()],
        tcp_ports: vec![20001],
        max_tunnels: Some(5),
    };
    let lines = print_remote_reconcile(&cfg, &owned).join("\n");
    assert!(lines.contains("\nPlan usage: 3 of 5 tunnels\n"));
    assert!(lines.contains("old.ethertunnel.com") && lines.contains("20001"));
    assert!(!report_released(&owned).is_empty());
    let none = OwnedSet { hostnames: vec![], tcp_ports: vec![], max_tunnels: Some(2) };
    assert_eq!(print_remote_reconcile(&cfg, &none)[2], "Plan usage: 0 of 2 tunnels");
    let unlimited = OwnedSet { max_tunnels: None, ..owned.clone() };
    assert!(!print_remote_reconcile(&cfg, &unlimited).join("\n").contains("Plan usage"));
    assert!(!release_report(&none, "x").is_empty());
}

#[test]
fn status_is_announced_on_change() {
    let mut d = DaemonStatus::default();
    d.state = ConnState::Connected;
    d.granted_hostnames = vec!["a.example.com".into()];
    let s = StatusSnapshot::from_daemon("example.com", &d, 42);
    assert_eq!(s.pid, 42);
    let mut last = ConnState::Connecting;
    let first = announce(&s, &mut last);
    assert!(!first.error && first.lines.join("\n").contains("a.example.com"));
    assert!(announce(&s, &mut last).lines.is_empty());
    d.state = ConnState::AuthFailed;
    let failed = StatusSnapshot::from_daemon("example.com", &d, 42);
    assert!(announce(&failed, &mut last).error);
    assert!(!status(&None).is_empty());
    assert!(status(&Some(s)).join("\n").contains("a.example.com"));
}

#[test]
fn doctor_counts_what_failed() {
    let cfg = config(vec![tunnel("demo", Protocol::Http, None)]);
    let bad = Probes {
        token: false,
        trust: Ok(()),
        tls: Err("refused".into()),
        auth: None,
    };
    let checks = run(&cfg, &bad);
    assert!(!conclude(&checks).1);
    assert!(checks.iter().any(|c| c.line().contains("refused")));
    let good = Probes {
        token: true,
        trust: Ok(()),
        tls: Ok(TlsInfo { days_remaining: 60, expired: false }),
        auth: Some(Ok(VerifyOk { session_id: 1, proto: 1 })),
    };
    assert!(conclude(&run(&cfg, &good)).1);
}

#[test]
fn logs_and_service_files() {
    assert_eq!(log_file_basename(), "etun.log");
    let names = vec!["etun.log.2026-01-02".to_string(), "etun.log.2026-01-10".into(), "x".into()];
    assert_eq!(latest_log(&names), Some(1));
    assert_eq!(latest_log(&vec!["x".to_string()]), None);
    let unit = unit_text("/usr/bin/etun", true);
    for line in [
        "ExecStart=/usr/bin/etun up --service-mode\n",
        "\nDynamicUser=yes\n",
        "\nStateDirectory=etun\n",
        "\nLoadCredential=token:/etc/etun/token\n",
        "\nEnvironment=ETUN_TOKEN_FILE=%d/token\n",
        "\nWantedBy=multi-user.target\n",
    ] {
        assert!(unit.contains(line), "{line}");
    }
    let own = unit_text("/usr/bin/etun", false);
    assert!(own.contains("ExecStart=/usr/bin/etun up --service-mode\n"));
    assert!(own.ends_with("WantedBy=default.target\n"));
    assert!(!own.contains("DynamicUser") && !own.contains("LoadCredential"));
    let plan = install_plan(true);
    assert_eq!(plan.dirs, vec!["/etc/etun", "/var/lib/etun"]);
    assert!(!plan.start && !plan.linger);
    let plan = install_plan(false);
    assert!(plan.dirs.is_empty() && plan.start && plan.linger);
    assert!(plist_text("/usr/bin/etun", "/tmp/log").contains("<string>/usr/bin/etun</string>"));
    assert!(service_command("C:\\etun.exe").contains("C:\\etun.exe"));
}

#[test]
fn custom_root_is_trusted_alone() {
    let made = rcgen::generate_simple_self_signed(vec!["relay.example".to_owned()]).unwrap();
    let der = made.cert.der().to_vec();
    assert_eq!(custom_roots(&der).unwrap().len(), 1);
    assert_eq!(trusted_roots(&TrustMode::CustomRoot(der)).unwrap().len(), 1);
    let why = match trusted_roots(&TrustMode::CustomRoot(b"junk".to_vec())) {
        Ok(_) => panic!("trusted"),
        Err(e) => e,
    };
    assert!(why.starts_with("invalid relay CA certificate: "), "{why}");
    assert!(trusted_roots(&TrustMode::System).unwrap().len() > 50);
}

#[test]
fn relay_is_asked_for_by_its_control_name() {
    let name = relay_server_name("ethertunnel.com").unwrap();
    assert_eq!(name.to_str(), "connect.ethertunnel.com");
    match relay_server_name("not a name") {
        Ok(_) => panic!("named"),
        Err(e) => assert_eq!(e, "invalid dns name"),
    }
}

#[test]
fn config_dir_prefers_the_override() {
    assert_eq!(config_dir(Some("/over"), Some("/user")), Ok("/over"));
    assert_eq!(config_dir(Some("/over"), None), Ok("/over"));
    assert_eq!(config_dir(None, Some("/user")), Ok("/user"));
    assert_eq!(
        config_dir::<&str>(None, None),
        Err("cannot determine a config directory for this platform".to_string())
    );
}
