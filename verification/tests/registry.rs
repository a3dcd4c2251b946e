use ethertunnel::relay::admin::{admin_source, run_admin, AdminAction};
use ethertunnel::relay::auth::{Authenticator, ClaimOutcome};
use ethertunnel::relay::label::{is_reserved, validate_label, RESERVED_LABELS};
use ethertunnel::relay::ledger::DbFault;
use ethertunnel::relay::registry::{generate_token, hash_token, Registry, RegistryError};
use ethertunnel::relay::rows::{HostRow, PortRow, TokenRec, UserRow};

fn reg() -> Registry {
    Registry::open_in_memory("ethertunnel.com").unwrap()
}

#[test]
fn label_validation() {
    assert!(validate_label("demo").is_ok());
    assert!(validate_label("my-app-2").is_ok());
    assert!(validate_label("").is_err());
    assert!(validate_label("-bad").is_err());
    assert!(validate_label("bad-").is_err());
    assert!(validate_label("UPPER").is_err());
    assert!(validate_label("has.dot").is_err());
    assert!(validate_label("connect").is_err()); // reserved
}

#[test]
fn label_faults_are_told_apart() {
    assert_eq!(validate_label(""), Err("must be 1..=63 characters"));
    assert_eq!(validate_label(&"a".repeat(64)), Err("must be 1..=63 characters"));
    assert_eq!(validate_label(&"a".repeat(63)), Ok(()));
    assert_eq!(validate_label("-bad"), Err("must start and end with a-z0-9"));
    assert_eq!(validate_label("a_b"), Err("only a-z, 0-9 and '-' are allowed"));
    for l in RESERVED_LABELS {
        assert!(is_reserved(l));
        assert_eq!(validate_label(l), Err("this label is reserved"));
    }
}

#[test]
fn token_lifecycle_and_auth() {
    let mut r = reg();
    r.add_user("mat").unwrap();
    let token = r.create_token("mat", Some("laptop")).unwrap();
    assert!(token.starts_with("etun_"));

    let user = r.authenticate(&token).expect("token authenticates");
    assert_eq!(user.name, "mat");
    assert!(r.authenticate("etun_wrong").is_none());

    // Revoke kills it.
    let id = r.list_tokens(Some("mat")).unwrap()[0].id;
    assert!(r.revoke_token(id).unwrap());
    assert!(r.authenticate(&token).is_none());
}

#[test]
fn revocation_is_final_and_spares_others() {
    let mut r = reg();
    let uid = r.add_user("mat").unwrap();
    r.add_user("eve").unwrap();
    r.provision_user_token_with("mat", "etun_old", 1).unwrap();
    r.provision_user_token_with("mat", "etun_same_user", 2).unwrap();
    r.provision_user_token_with("eve", "etun_other_user", 3).unwrap();
    let id = r.list_tokens(Some("mat")).unwrap()[0].id;
    assert!(r.revoke_token_at(id, 4).unwrap());
    assert!(!r.revoke_token_at(id, 5).unwrap());
    assert!(r.list_tokens(Some("mat")).unwrap()[0].revoked);
    assert_eq!(r.authenticate("etun_same_user").unwrap().name, "mat");
    assert_eq!(r.authenticate("etun_other_user").unwrap().name, "eve");

    // Nothing brings it back, not even storing it again.
    assert!(r.provision_user_token_with("mat", "etun_old", 6).is_err());
    assert!(r.provision_user_token_with("eve", "etun_old", 7).is_err());
    r.claim_label_at(uid, "demo", None, 8).unwrap();
    r.add_port_at(20000, "mat", 9).unwrap();
    r.prune_owned_to_cap(uid, 0).unwrap();
    assert!(r.rotate_user_token_with("mat", "etun_old", 10).is_err());
    r.rotate_user_token_with("mat", "etun_new", 11).unwrap();
    assert!(r.authenticate("etun_old").is_none());
    r.remove_user("mat", true).unwrap();
    assert!(r.authenticate("etun_old").is_none());
    assert_eq!(r.authenticate("etun_other_user").unwrap().name, "eve");

    // With its row gone, the same text is a token like any other.
    r.provision_user_token_with("eve", "etun_old", 12).unwrap();
    assert_eq!(r.authenticate("etun_old").unwrap().name, "eve");
}

#[test]
fn hostname_ownership_by_fqdn() {
    let mut r = reg();
    let uid = r.add_user("mat").unwrap();
    let other = r.add_user("eve").unwrap();
    r.add_hostname("demo", "mat").unwrap();

    assert!(r.owns_hostname(uid, "demo.ethertunnel.com"));
    assert!(!r.owns_hostname(other, "demo.ethertunnel.com")); // not eve's
    assert!(!r.owns_hostname(uid, "demo.evil.com")); // wrong apex
    assert!(!r.owns_hostname(uid, "a.b.ethertunnel.com")); // too deep
    assert!(!r.owns_hostname(uid, "missing.ethertunnel.com"));

    // Duplicate label is rejected regardless of owner.
    assert!(matches!(r.add_hostname("demo", "eve"), Err(RegistryError::LabelTaken(_))));
}

#[test]
fn port_reservation() {
    let mut r = reg();
    let uid = r.add_user("mat").unwrap();
    r.add_port(20000, "mat").unwrap();
    assert!(r.owns_port(uid, 20000));
    assert!(matches!(r.add_port(20000, "mat"), Err(RegistryError::PortTaken(20000))));
}

#[test]
fn provision_user_token_is_idempotent_on_name() {
    let mut r = reg();
    // First provision creates the user.
    let (t1, created1) = r.provision_user_token("acct_abc").unwrap();
    assert!(created1, "first provision creates the user");
    assert!(t1.starts_with("etun_"));
    assert!(r.authenticate(&t1).is_some());

    // Second provision against the same ref reuses the user and mints a new
    // token (both tokens authenticate to the same user).
    let (t2, created2) = r.provision_user_token("acct_abc").unwrap();
    assert!(!created2, "second provision reuses the existing user");
    assert_ne!(t1, t2);
    assert_eq!(r.authenticate(&t1).unwrap().user_id, r.authenticate(&t2).unwrap().user_id);
    // Exactly one user row exists.
    assert_eq!(r.list_users().unwrap().len(), 1);
}

#[test]
fn rotate_user_token_revokes_all_previous_tokens() {
    let mut r = reg();
    let (old1, _) = r.provision_user_token("acct_rot").unwrap();
    let (old2, _) = r.provision_user_token("acct_rot").unwrap();
    assert!(r.authenticate(&old1).is_some());
    assert!(r.authenticate(&old2).is_some());

    // Rotate: both prior tokens must die, exactly one fresh token is minted.
    let (fresh, revoked) = r.rotate_user_token("acct_rot").unwrap();
    assert_eq!(revoked, 2, "both previously-valid tokens are revoked");
    assert_ne!(fresh, old1);
    assert_ne!(fresh, old2);
    assert!(r.authenticate(&old1).is_none(), "an old token must fail auth after rotate");
    assert!(r.authenticate(&old2).is_none());
    assert!(r.authenticate(&fresh).is_some(), "the rotated token authenticates");
    // Still a single account; no duplicate user created.
    assert_eq!(r.list_users().unwrap().len(), 1);

    // Rotating again revokes the previous fresh token (count = 1) and issues a
    // new one; the just-superseded token stops working.
    let (fresh2, revoked2) = r.rotate_user_token("acct_rot").unwrap();
    assert_eq!(revoked2, 1);
    assert!(r.authenticate(&fresh).is_none());
    assert!(r.authenticate(&fresh2).is_some());
}

#[test]
fn rotate_user_token_creates_account_if_absent() {
    let mut r = reg();
    let (tok, revoked) = r.rotate_user_token("acct_new").unwrap();
    assert_eq!(revoked, 0);
    assert!(r.authenticate(&tok).is_some());
    assert_eq!(r.list_users().unwrap().len(), 1);
}

#[test]
fn release_user_hostnames_returns_and_empties() {
    let mut r = reg();
    let uid = r.add_user("acct_x").unwrap();
    r.add_hostname("alpha", "acct_x").unwrap();
    r.add_hostname("beta", "acct_x").unwrap();
    r.add_port(20001, "acct_x").unwrap();

    // Without releasing ports.
    let (mut hosts, ports) = r.release_user_hostnames("acct_x", false).unwrap();
    hosts.sort();
    assert_eq!(hosts, vec!["alpha".to_string(), "beta".to_string()]);
    assert!(ports.is_empty());
    assert!(r.list_hostnames(Some("acct_x")).unwrap().is_empty());
    // The user and the port survive.
    assert!(r.owns_port(uid, 20001));

    // Releasing again is a no-op (empty), and a label freed is reclaimable.
    let (hosts2, _) = r.release_user_hostnames("acct_x", true).unwrap();
    assert!(hosts2.is_empty());
    assert!(!r.owns_port(uid, 20001));

    // Unknown user -> NoSuchUser (reaper treats as already released).
    assert!(matches!(
        r.release_user_hostnames("nobody", true),
        Err(RegistryError::NoSuchUser(_))
    ));
}

#[test]
fn claim_label_free_own_taken() {
    let mut r = reg();
    let mat = r.add_user("acct_mat").unwrap();
    let eve = r.add_user("acct_eve").unwrap();

    // Free -> registered.
    assert!(r.claim_label(mat, "myapp").unwrap());
    assert!(r.owns_hostname(mat, "myapp.ethertunnel.com"));

    // Already mine -> idempotent false, no error.
    assert!(!r.claim_label(mat, "myapp").unwrap());

    // Owned by someone else -> LabelTaken.
    assert!(matches!(r.claim_label(eve, "myapp"), Err(RegistryError::LabelTaken(_))));

    // Reserved/invalid -> InvalidLabel, nothing registered.
    assert!(matches!(r.claim_label(mat, "connect"), Err(RegistryError::InvalidLabel(_, _))));
    assert!(matches!(r.claim_label(mat, "Bad_Label"), Err(RegistryError::InvalidLabel(_, _))));
}

#[test]
fn claim_label_capped_enforces_owned_count() {
    let mut r = reg();
    let mat = r.add_user("acct_mat").unwrap();

    // Cap of 2. Two fresh labels are fine and bring owned count to 2.
    assert!(r.claim_label_capped(mat, "one", Some(2)).unwrap());
    assert!(r.claim_label_capped(mat, "two", Some(2)).unwrap());
    assert_eq!(r.count_owned_resources(mat).unwrap(), 2);

    // (a) At the cap, a NEW free label is refused with CapExceeded and is NOT
    // registered (no leaked row).
    assert!(matches!(
        r.claim_label_capped(mat, "three", Some(2)),
        Err(RegistryError::CapExceeded)
    ));
    assert!(!r.owns_hostname(mat, "three.ethertunnel.com"));
    assert_eq!(r.count_owned_resources(mat).unwrap(), 2);

    // (b) The same user can still re-claim a label they already own, even at the
    // cap - idempotent no-op, no error.
    assert!(!r.claim_label_capped(mat, "one", Some(2)).unwrap());

    // (c) After releasing a hostname the user is back under cap and can claim a
    // new one again.
    assert!(r.remove_hostname("two").unwrap());
    assert_eq!(r.count_owned_resources(mat).unwrap(), 1);
    assert!(r.claim_label_capped(mat, "three", Some(2)).unwrap());
    assert_eq!(r.count_owned_resources(mat).unwrap(), 2);
}

#[test]
fn claim_label_capped_max_none_is_uncapped() {
    let mut r = reg();
    let mat = r.add_user("acct_mat").unwrap();
    for label in ["a", "b", "c", "d", "e"] {
        assert!(r.claim_label_capped(mat, label, None).unwrap());
    }
    assert_eq!(r.count_owned_resources(mat).unwrap(), 5);
}

#[test]
fn count_owned_resources_counts_hostnames_and_ports_not_tokens() {
    let mut r = reg();
    let mat = r.add_user("acct_mat").unwrap();
    assert_eq!(r.count_owned_resources(mat).unwrap(), 0);
    // Tokens do not count toward the owned-resource cap.
    let _ = r.create_token("acct_mat", Some("laptop")).unwrap();
    assert_eq!(r.count_owned_resources(mat).unwrap(), 0);
    // Hostnames and ports both count.
    r.add_hostname("alpha", "acct_mat").unwrap();
    r.add_port(20002, "acct_mat").unwrap();
    assert_eq!(r.count_owned_resources(mat).unwrap(), 2);
}

#[test]
fn prune_owned_to_cap_keeps_oldest_drops_newest() {
    let mut r = reg();
    let mat = r.add_user("mat").unwrap();
    // Three hostnames + one port with explicit, increasing created_at.
    for (label, ts) in [("oldest", 100), ("middle", 200), ("newest", 300)] {
        r.add_hostname_at(label, "mat", ts).unwrap();
    }
    r.add_port_at(20500, "mat", 250).unwrap();
    assert_eq!(r.count_owned_resources(mat).unwrap(), 4);

    // Cap to 2: keep the two oldest (oldest@100, middle@200); drop port@250 and
    // newest@300.
    let (hosts, ports) = r.prune_owned_to_cap(mat, 2).unwrap();
    let mut removed = hosts.clone();
    removed.sort();
    assert_eq!(removed, vec!["newest".to_string()]);
    assert_eq!(ports, vec![20500]);
    assert_eq!(r.count_owned_resources(mat).unwrap(), 2);
    assert!(r.owns_hostname(mat, "oldest.ethertunnel.com"));
    assert!(r.owns_hostname(mat, "middle.ethertunnel.com"));
    assert!(!r.owns_hostname(mat, "newest.ethertunnel.com"));
    assert!(!r.owns_port(mat, 20500));

    // Already within cap => no-op.
    let (h2, p2) = r.prune_owned_to_cap(mat, 5).unwrap();
    assert!(h2.is_empty() && p2.is_empty());

    // Cap 0 (deny-all) prunes everything remaining.
    let (h3, p3) = r.prune_owned_to_cap(mat, 0).unwrap();
    assert_eq!(h3.len() + p3.len(), 2);
    assert_eq!(r.count_owned_resources(mat).unwrap(), 0);
}

#[test]
fn lookup_user_id_resolves_or_none() {
    let mut r = reg();
    let mat = r.add_user("acct_mat").unwrap();
    assert_eq!(r.lookup_user_id("acct_mat").unwrap(), Some(mat));
    assert_eq!(r.lookup_user_id("ghost").unwrap(), None);
}

#[test]
fn remove_user_guards_owned_resources() {
    let mut r = reg();
    r.add_user("mat").unwrap();
    r.add_hostname("demo", "mat").unwrap();
    assert!(matches!(r.remove_user("mat", false), Err(RegistryError::UserNotEmpty(_))));
    assert!(r.remove_user("mat", true).is_ok());
}

#[test]
fn open_in_memory_does_not_chmod_or_panic() {
    let mut r = Registry::open_in_memory("ethertunnel.com").unwrap();
    r.add_user("mat").unwrap();
    assert_eq!(r.list_users().unwrap().len(), 1);
}

#[test]
fn claims_past_the_cap_all_fail() {
    let mut r = reg();
    let mat = r.add_user("mat").unwrap();
    let mut granted = 0;
    let mut refused = 0;
    for i in 0..16 {
        match r.claim_label_capped(mat, &format!("h{i}"), Some(5)) {
            Ok(true) => granted += 1,
            Err(RegistryError::CapExceeded) => refused += 1,
            other => panic!("unexpected claim outcome: {other:?}"),
        }
    }
    assert_eq!((granted, refused), (5, 11));
    assert_eq!(r.count_owned_resources(mat).unwrap(), 5);
}

#[test]
fn every_registry_error_has_an_input() {
    let mut r = reg();
    r.add_user("mat").unwrap();
    assert_eq!(r.add_user("mat").unwrap_err().message(), "user mat already exists");
    assert_eq!(r.create_token("eve", None).unwrap_err().message(), "no such user: eve");
    assert!(matches!(r.remove_user("eve", true), Err(RegistryError::NoSuchUser(n)) if n == "eve"));
    r.create_token_with("mat", None, "etun_same", 1).unwrap();
    assert!(matches!(
        r.create_token_with("mat", None, "etun_same", 2),
        Err(RegistryError::Db(DbFault::DuplicateToken))
    ));
    let users = vec![
        UserRow { id: 1, name: "a".into(), created_at: 0 },
        UserRow { id: 1, name: "b".into(), created_at: 0 },
    ];
    assert!(matches!(
        Registry::from_rows("example.com", users, vec![], vec![], vec![]),
        Err(RegistryError::Db(DbFault::BadRows))
    ));
}

#[test]
fn rows_survive_a_reload() {
    let mut r = reg();
    let mat = r.add_user_at("mat", 5).unwrap();
    r.create_token_with("mat", Some("laptop"), "etun_abc", 6).unwrap();
    r.add_hostname_at("demo", "mat", 7).unwrap();
    r.add_port_at(20001, "mat", 8).unwrap();
    let users: Vec<UserRow> = r.user_rows().iter().cloned().collect();
    let tokens: Vec<TokenRec> = r.token_rows().iter().cloned().collect();
    let hosts: Vec<HostRow> = r.host_rows().iter().cloned().collect();
    let ports: Vec<PortRow> = r.port_rows().iter().cloned().collect();
    let again = Registry::from_rows(r.domain(), users, tokens, hosts, ports).unwrap();
    assert_eq!(again.authenticate("etun_abc").unwrap().user_id, mat);
    assert!(again.owns_hostname(mat, "demo.ethertunnel.com"));
    assert!(again.owns_port(mat, 20001));
}

#[test]
fn tokens_are_random_and_hashed() {
    let a = generate_token();
    let b = generate_token();
    assert_ne!(a, b);
    assert_eq!(a.len(), "etun_".len() + 43);
    // SHA-256 of "abc".
    assert_eq!(
        hash_token("abc")[..4].to_vec(),
        vec![0xba, 0x78, 0x16, 0xbf]
    );
    assert_eq!(hash_token("abc").len(), 32);
}

#[test]
fn authenticator_claims_and_releases_through_the_registry() {
    let mut r = reg();
    let mat = r.add_user("mat").unwrap();
    let eve = r.add_user("eve").unwrap();
    assert!(matches!(
        r.claim_hostname(mat, "app.ethertunnel.com", Some(1), 10),
        ClaimOutcome::Owned
    ));
    assert!(matches!(
        r.claim_hostname(mat, "two.ethertunnel.com", Some(1), 10),
        ClaimOutcome::CapExceeded
    ));
    assert!(matches!(
        r.claim_hostname(eve, "app.ethertunnel.com", None, 10),
        ClaimOutcome::Taken
    ));
    assert!(matches!(
        r.claim_hostname(eve, "www.ethertunnel.com", None, 10),
        ClaimOutcome::Invalid(_)
    ));
    assert_eq!(r.owned_hostnames(mat), vec!["app.ethertunnel.com".to_string()]);
    assert!(!r.release_hostname(eve, "app.ethertunnel.com"));
    assert!(r.release_hostname(mat, "app.ethertunnel.com"));
    assert!(matches!(
        r.claim_hostname(eve, "app.ethertunnel.com", None, 10),
        ClaimOutcome::Owned
    ));
}

fn run(r: &mut Registry, a: AdminAction) -> Vec<String> {
    run_admin(r, "ethertunnel.com", &a).unwrap()
}

#[test]
fn admin_commands_print_what_they_did() {
    let mut r = reg();
    assert_eq!(run(&mut r, AdminAction::UserAdd { name: "mat".into() }), vec!["added user mat"]);
    run(&mut r, AdminAction::UserAdd { name: "eve".into() });
    assert_eq!(run(&mut r, AdminAction::UserLs), vec!["2\teve", "1\tmat"]);
    let out = run(
        &mut r,
        AdminAction::TokenCreate { user: "mat".into(), label: Some("laptop".into()) },
    );
    assert!(out[0].starts_with("token for mat (shown once, store it now):\n\n  etun_"));
    assert_eq!(
        run(&mut r, AdminAction::TokenLs { user: None }),
        vec!["1\tmat\tactive\tlaptop"]
    );
    assert_eq!(run(&mut r, AdminAction::TokenRevoke { id: 1 }), vec!["revoked token 1"]);
    assert_eq!(
        run(&mut r, AdminAction::TokenRevoke { id: 1 }),
        vec!["token 1 not found or already revoked"]
    );
    assert_eq!(
        run(&mut r, AdminAction::HostnameAdd { label: "demo".into(), user: "mat".into() }),
        vec!["granted demo.ethertunnel.com to mat"]
    );
    assert_eq!(
        run(&mut r, AdminAction::HostnameLs { user: Some("mat".into()) }),
        vec!["demo.ethertunnel.com\tmat"]
    );
    assert_eq!(
        run(&mut r, AdminAction::HostnameRm { label: "demo".into() }),
        vec!["removed demo.ethertunnel.com"]
    );
    assert_eq!(
        run(&mut r, AdminAction::HostnameRm { label: "demo".into() }),
        vec!["no such hostname: demo"]
    );
    assert_eq!(
        run(&mut r, AdminAction::PortAdd { port: 20001, user: "eve".into() }),
        vec!["reserved port 20001 for eve"]
    );
    assert_eq!(run(&mut r, AdminAction::PortLs), vec!["20001\teve"]);
    assert_eq!(run(&mut r, AdminAction::PortRm { port: 20001 }), vec!["released port 20001"]);
    assert_eq!(
        run(&mut r, AdminAction::PortRm { port: 20001 }),
        vec!["no such reserved port: 20001"]
    );
    assert_eq!(
        run(&mut r, AdminAction::UserRm { name: "eve".into(), force: false }),
        vec!["removed user eve"]
    );
    assert!(run_admin(&mut r, "x", &AdminAction::UserAdd { name: "mat".into() }).is_err());
}

#[test]
fn admin_needs_a_database_and_a_domain() {
    let some = |s: &str| Some(s.to_string());
    assert_eq!(admin_source(some("a"), some("b"), None), Ok(("a".into(), "b".into())));
    assert_eq!(
        admin_source(some("a"), None, Some(("c".into(), "d".into()))),
        Ok(("a".into(), "d".into()))
    );
    assert_eq!(
        admin_source(None, None, None),
        Err("provide --config, or both --db and --domain")
    );
}
