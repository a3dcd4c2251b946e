//! Diagnostics of a client: whether it can reach and use its relay.
//!
//! The probes are made by the program around this module, which hands in what
//! they found.
use vstd::prelude::*;

use crate::client::config::FileConfig;
use crate::client::login::{TlsInfo, VerifyOk};
use crate::text;

verus! {

/// Width of the label column.
pub const LABEL_WIDTH: usize = 16;

/// What the probes found. Later ones are not made where an earlier one ends the
/// diagnosis.
pub struct Probes {
    /// A token for the relay is there.
    pub token: bool,
    /// The trusted certificate could be loaded, or why not.
    pub trust: Result<(), String>,
    /// What the TLS handshake told.
    pub tls: Result<TlsInfo, String>,
    /// What a login told; asked only with a token.
    pub auth: Option<Result<VerifyOk, String>>,
}

/// One check: passed or not, its label and detail.
pub struct CheckView {
    pub ok: bool,
    pub label: Seq<char>,
    pub detail: Seq<char>,
}

/// The line of a check in the report.
pub open spec fn report_line(c: CheckView) -> Seq<char> {
    (if c.ok {
        "[ok  ] "@
    } else {
        "[FAIL] "@
    }) + text::padded(c.label, LABEL_WIDTH as nat) + " "@ + c.detail
}

/// Outcome of one check.
#[derive(Clone, Debug)]
pub struct Check {
    pub ok: bool,
    pub label: String,
    pub detail: String,
}

impl View for Check {
    type V = CheckView;

    open spec fn view(&self) -> CheckView {
        CheckView { ok: self.ok, label: self.label@, detail: self.detail@ }
    }
}

/// Views of a list of checks.
pub open spec fn check_views(v: Seq<Check>) -> Seq<CheckView> {
    v.map_values(|c: Check| c@)
}

impl Check {
    /// The line of the check in the report.
    pub fn line(&self) -> (r: String)
        ensures
            r@ == report_line(self@),
    {
        let mark = if self.ok {
            "[ok  ] "
        } else {
            "[FAIL] "
        };
        let mut s = text::join2(mark, text::pad(self.label.as_str(), LABEL_WIDTH).as_str());
        s.append(" ");
        s.append(self.detail.as_str());
        s
    }
}

/// A check that passed.
pub open spec fn pass(label: Seq<char>, detail: Seq<char>) -> CheckView {
    CheckView { ok: true, label, detail }
}

/// A check that failed.
pub open spec fn fail(label: Seq<char>, detail: Seq<char>) -> CheckView {
    CheckView { ok: false, label, detail }
}

fn push(out: &mut Vec<Check>, ok: bool, label: &str, detail: String)
    ensures
        check_views(final(out)@) == check_views(old(out)@).push(
            CheckView { ok, label: label@, detail: detail@ },
        ),
{
    let ghost done = out@;
    let c = Check { ok, label: label.to_owned(), detail };
    out.push(c);
    assert(check_views(out@) =~= check_views(done).push(c@));
}

/// The check of the relay's certificate.
pub open spec fn tls_check(t: Result<TlsInfo, String>) -> CheckView {
    match t {
        Ok(info) => if info.expired {
            fail("relay tls"@, "certificate has expired"@)
        } else {
            pass(
                "relay tls"@,
                "valid, ~"@ + text::decimal_int(info.days_remaining as int) + " days remaining"@,
            )
        },
        Err(e) => fail("relay tls"@, e@),
    }
}

/// The check of a login.
pub open spec fn auth_check(a: Result<VerifyOk, String>) -> CheckView {
    match a {
        Ok(v) => pass(
            "auth"@,
            "accepted (session "@ + text::decimal(v.session_id as nat) + ", proto "@
                + text::decimal(v.proto as nat) + ")"@,
        ),
        Err(e) => fail("auth"@, e@),
    }
}

/// All checks of a configuration that names a relay.
pub open spec fn all_checks(relay: Seq<char>, tunnels: nat, p: Probes) -> Seq<CheckView> {
    let base = seq![
        pass("config"@, "relay = "@ + relay),
        pass("tunnels"@, text::decimal(tunnels) + " configured"@),
        if p.token {
            pass("credentials"@, "token present"@)
        } else {
            fail("credentials"@, "no token; run `etun login`"@)
        },
    ];
    match p.trust {
        Err(e) => base.push(fail("trust"@, e@)),
        Ok(_) => {
            let with_tls = base.push(tls_check(p.tls));
            match p.auth {
                Some(a) => if p.token {
                    with_tls.push(auth_check(a))
                } else {
                    with_tls
                },
                None => with_tls,
            }
        },
    }
}

/// Judge what the probes found. Without a relay there is nothing to probe.
pub fn run(cfg: &FileConfig, p: &Probes) -> (r: Vec<Check>)
    ensures
        check_views(r@) == (if cfg.relay@.len() == 0 {
            seq![fail("config"@, "no relay set; run `etun login` first"@)]
        } else {
            all_checks(cfg.relay@, cfg.tunnels@.len(), *p)
        }),
{
    let mut out: Vec<Check> = Vec::new();
    assert(check_views(out@) =~= Seq::<CheckView>::empty());
    if cfg.relay.as_str().is_empty() {
        push(&mut out, false, "config", "no relay set; run `etun login` first".to_owned());
        assert(check_views(out@) =~= seq![
            fail("config"@, "no relay set; run `etun login` first"@),
        ]);
        return out;
    }
    push(&mut out, true, "config", text::join2("relay = ", cfg.relay.as_str()));
    push(
        &mut out,
        true,
        "tunnels",
        text::join2(text::decimal_u64(cfg.tunnels.len() as u64).as_str(), " configured"),
    );
    if p.token {
        push(&mut out, true, "credentials", "token present".to_owned());
    } else {
        push(&mut out, false, "credentials", "no token; run `etun login`".to_owned());
    }
    match &p.trust {
        Err(e) => {
            push(&mut out, false, "trust", e.clone());
        },
        Ok(_) => {
            match &p.tls {
                Ok(info) => {
                    if info.expired {
                        push(&mut out, false, "relay tls", "certificate has expired".to_owned());
                    } else {
                        push(
                            &mut out,
                            true,
                            "relay tls",
                            text::join3(
                                "valid, ~",
                                text::decimal_i64(info.days_remaining).as_str(),
                                " days remaining",
                            ),
                        );
                    }
                },
                Err(e) => {
                    push(&mut out, false, "relay tls", e.clone());
                },
            }
            if p.token {
                match &p.auth {
                    Some(a) => match a {
                        Ok(v) => {
                            let mut s = text::join3(
                                "accepted (session ",
                                text::decimal_u64(v.session_id).as_str(),
                                ", proto ",
                            );
                            s.append(text::decimal_u64(v.proto as u64).as_str());
                            s.append(")");
                            push(&mut out, true, "auth", s);
                        },
                        Err(e) => {
                            push(&mut out, false, "auth", e.clone());
                        },
                    },
                    None => {},
                }
            }
        },
    }
    assert(check_views(out@) =~= all_checks(cfg.relay@, cfg.tunnels@.len(), *p));
    out
}

/// How many checks failed.
pub open spec fn failures(s: Seq<CheckView>) -> nat
    decreases s.len(),
{
    if s.len() == 0 {
        0
    } else {
        failures(s.drop_last()) + (if s.last().ok {
            0nat
        } else {
            1nat
        })
    }
}

/// The closing line, and whether every check passed.
pub fn conclude(checks: &Vec<Check>) -> (r: (String, bool))
    ensures
        r.1 == (failures(check_views(checks@)) == 0),
        r.0@ == (if failures(check_views(checks@)) == 0 {
            "All checks passed."@
        } else {
            text::decimal(failures(check_views(checks@))) + " check(s) failed."@
        }),
{
    let ghost cv = check_views(checks@);
    let mut n: usize = 0;
    let mut i: usize = 0;
    assert(cv.take(0) =~= Seq::<CheckView>::empty());
    while i < checks.len()
        invariant
            i <= checks@.len(),
            n <= i,
            cv == check_views(checks@),
            n == failures(cv.take(i as int)),
        decreases checks@.len() - i,
    {
        proof {
            assert(cv.take(i + 1).drop_last() =~= cv.take(i as int));
            assert(cv.take(i + 1).last() == checks@[i as int]@);
        }
        if !checks[i].ok {
            n += 1;
        }
        i += 1;
    }
    assert(cv.take(i as int) =~= cv);
    if n == 0 {
        ("All checks passed.".to_owned(), true)
    } else {
        (text::join2(text::decimal_u64(n as u64).as_str(), " check(s) failed."), false)
    }
}

/// The number of failures is the number of checks that did not pass.
pub proof fn every_failure_is_counted(s: Seq<CheckView>)
    ensures
        failures(s) == s.filter(|c: CheckView| !c.ok).len(),
        failures(s) == 0 <==> forall|i: int| 0 <= i < s.len() ==> (#[trigger] s[i]).ok,
    decreases s.len(),
{
    reveal(Seq::filter);
    if s.len() > 0 {
        every_failure_is_counted(s.drop_last());
        assert(forall|i: int| 0 <= i < s.len() - 1 ==> #[trigger] s[i] == s.drop_last()[i]);
        assert(s.last() == s[s.len() - 1]);
    }
}

/// Every check passes if and only if there is a token, the relay is trusted, its
/// certificate is in date, and the token was not turned down.
pub proof fn all_pass_if_all_is_well(relay: Seq<char>, tunnels: nat, p: Probes)
    ensures
        failures(all_checks(relay, tunnels, p)) == 0 <==> p.token && p.trust is Ok && p.tls is Ok
            && !p.tls->Ok_0.expired && (p.auth is Some ==> p.auth->0 is Ok),
{
    let all = all_checks(relay, tunnels, p);
    every_failure_is_counted(all);
    assert(all[2].ok == p.token);
    if p.trust is Err {
        assert(!all[3].ok);
    } else {
        assert(all[3] == tls_check(p.tls));
        if p.auth is Some && p.token {
            assert(all[4] == auth_check(p.auth->0));
        }
    }
}

/// A report names the relay and counts the tunnels; what cannot be tried is left
/// out.
pub proof fn report_stops_where_nothing_can_be_tried(relay: Seq<char>, tunnels: nat, p: Probes)
    ensures
        ({
            let all = all_checks(relay, tunnels, p);
            &&& all[0].label == "config"@ && all[0].detail == "relay = "@ + relay
            &&& all[1].label == "tunnels"@ && all[1].detail == text::decimal(tunnels)
                + " configured"@
            &&& all[2].label == "credentials"@
            &&& p.trust matches Err(e) ==> all.len() == 4 && all[3].label == "trust"@
                && all[3].detail == e@
            &&& p.trust is Ok ==> all[3].label == "relay tls"@
            &&& p.trust is Ok && p.token && p.auth is Some ==> all.len() == 5 && all[4].label
                == "auth"@
            &&& p.trust is Ok && !(p.token && p.auth is Some) ==> all.len() == 4
        }),
{
}

} // verus!
