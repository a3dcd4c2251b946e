//! Pre-flight diagnostics of a relay: what each probe means.
//!
//! The probes (opening the registry, resolving names, reading files, editing a
//! DNS record) are made by the program around this module, which hands in what
//! they found.
use vstd::prelude::*;

use crate::relay::acme::NANOS;
use crate::relay::config;
use crate::relay::config::{Config, TlsMode};
use crate::relay::tls;
use crate::text;

verus! {

/// Severity of a check.
#[derive(Clone, Copy, Debug, PartialEq, Eq, Structural)]
pub enum Level {
    Pass,
    /// For the operator to look at; no failure.
    Warn,
    Fail,
}

/// Outcome of one check.
#[derive(Clone, Debug)]
pub struct Check {
    pub level: Level,
    pub label: String,
    pub detail: String,
}

/// View of a [`Check`].
pub struct CheckView {
    pub level: Level,
    pub label: Seq<char>,
    pub detail: Seq<char>,
}

impl View for Check {
    type V = CheckView;

    open spec fn view(&self) -> CheckView {
        CheckView { level: self.level, label: self.label@, detail: self.detail@ }
    }
}

/// Views of a list of checks.
pub open spec fn check_views(v: Seq<Check>) -> Seq<CheckView> {
    v.map_values(|c: Check| c@)
}

/// A check that passed.
pub open spec fn pass(label: Seq<char>, detail: Seq<char>) -> CheckView {
    CheckView { level: Level::Pass, label, detail }
}

/// A check that failed.
pub open spec fn fail(label: Seq<char>, detail: Seq<char>) -> CheckView {
    CheckView { level: Level::Fail, label, detail }
}

impl Check {
    pub fn pass(label: &str, detail: String) -> (r: Self)
        ensures
            r@ == pass(label@, detail@),
    {
        Check { level: Level::Pass, label: label.to_owned(), detail }
    }

    pub fn warn(label: &str, detail: String) -> (r: Self)
        ensures
            r@ == (CheckView { level: Level::Warn, label: label@, detail: detail@ }),
    {
        Check { level: Level::Warn, label: label.to_owned(), detail }
    }

    pub fn fail(label: &str, detail: String) -> (r: Self)
        ensures
            r@ == fail(label@, detail@),
    {
        Check { level: Level::Fail, label: label.to_owned(), detail }
    }

    /// Only a failure counts against the pre-flight.
    pub fn is_fail(&self) -> (r: bool)
        ensures
            r == (self.level == Level::Fail),
    {
        match self.level {
            Level::Fail => true,
            _ => false,
        }
    }

    /// The line of the check in the report.
    pub fn line(&self) -> (r: String)
        ensures
            r@ == report_line(self@),
    {
        let mark = match self.level {
            Level::Pass => "[ok  ] ",
            Level::Warn => "[WARN] ",
            Level::Fail => "[FAIL] ",
        };
        let mut s = text::join2(mark, text::pad(self.label.as_str(), LABEL_WIDTH).as_str());
        s.append(" ");
        s.append(self.detail.as_str());
        s
    }
}

/// Width of the label column.
pub const LABEL_WIDTH: usize = 22;

/// The line of a check in the report.
pub open spec fn report_line(c: CheckView) -> Seq<char> {
    (match c.level {
        Level::Pass => "[ok  ] "@,
        Level::Warn => "[WARN] "@,
        Level::Fail => "[FAIL] "@,
    }) + text::padded(c.label, LABEL_WIDTH as nat) + " "@ + c.detail
}

/// What opening and checking the registry gave.
pub enum RegistryProbe {
    Good,
    /// The integrity check failed.
    Corrupt(String),
    /// It could not be opened.
    Closed(String),
}

/// What resolving a name gave.
pub enum DnsProbe {
    /// An address.
    Found(String),
    /// No address.
    Empty,
    Failed(String),
}

/// What reading the certificate to be served gave.
pub enum CertProbe {
    /// Its expiry, or why that is unreadable.
    Read(Result<u64, String>),
    /// The file could not be read.
    Failed(String),
}

/// What the certificate credentials gave.
pub enum AcmeProbe {
    /// The token file could not be read.
    NoToken(String),
    /// The token was read, and editing the zone worked or not.
    Token(Result<(), String>),
}

/// Everything the probes found.
pub struct Probes {
    pub registry: RegistryProbe,
    pub apex: DnsProbe,
    pub connect: DnsProbe,
    pub wildcard: DnsProbe,
    pub cert: CertProbe,
    pub acme: AcmeProbe,
}

/// The check of the registry at `path`.
pub open spec fn registry_view(p: RegistryProbe, path: Seq<char>) -> CheckView {
    match p {
        RegistryProbe::Good => pass("registry"@, path + " integrity ok"@),
        RegistryProbe::Corrupt(e) => fail("registry"@, "integrity check failed: "@ + e@),
        RegistryProbe::Closed(e) => fail("registry"@, "cannot open "@ + path + ": "@ + e@),
    }
}

fn registry_check(p: &RegistryProbe, path: &str) -> (r: Check)
    ensures
        r@ == registry_view(*p, path@),
{
    match p {
        RegistryProbe::Good => Check::pass("registry", text::join2(path, " integrity ok")),
        RegistryProbe::Corrupt(e) => Check::fail(
            "registry",
            text::join2("integrity check failed: ", e.as_str()),
        ),
        RegistryProbe::Closed(e) => {
            let mut s = text::join3("cannot open ", path, ": ");
            s.append(e.as_str());
            Check::fail("registry", s)
        },
    }
}

/// The check of a name.
pub open spec fn dns_view(p: DnsProbe, label: Seq<char>, host: Seq<char>) -> CheckView {
    match p {
        DnsProbe::Found(ip) => pass(label, host + " -> "@ + ip@),
        DnsProbe::Empty => fail(label, host + " resolved to no addresses"@),
        DnsProbe::Failed(e) => fail(label, host + ": "@ + e@),
    }
}

/// The check of a name: any address will do.
pub fn dns_check(p: &DnsProbe, label: &str, host: &str) -> (r: Check)
    ensures
        r@ == dns_view(*p, label@, host@),
{
    match p {
        DnsProbe::Found(ip) => Check::pass(label, text::join3(host, " -> ", ip.as_str())),
        DnsProbe::Empty => Check::fail(label, text::join2(host, " resolved to no addresses")),
        DnsProbe::Failed(e) => Check::fail(label, text::join3(host, ": ", e.as_str())),
    }
}

/// Whole days a certificate is still valid at `now` nanoseconds since the
/// epoch.
pub open spec fn days_left(not_after: u64, now: u128) -> nat {
    if not_after * NANOS > now {
        ((not_after * NANOS - now) / (NANOS as int) / 86400) as nat
    } else {
        0
    }
}

/// The check of an expiry.
pub open spec fn expiry_view(
    label: Seq<char>,
    read: Result<u64, Seq<char>>,
    now: u128,
) -> CheckView {
    match read {
        Ok(t) => if days_left(t, now) == 0 {
            fail(label, "certificate has expired"@)
        } else {
            pass(label, "valid, ~"@ + text::decimal(days_left(t, now)) + " days remaining"@)
        },
        Err(e) => fail(label, "unreadable certificate: "@ + e),
    }
}

/// The check of an expiry: less than a day is as good as over.
pub fn expiry_detail(label: &str, read: &Result<u64, String>, now: u128) -> (r: Check)
    ensures
        r@ == expiry_view(label@, tls::number_or_text(*read), now),
{
    match read {
        Ok(t) => {
            let end: u128 = *t as u128 * NANOS;
            let days: u128 = if end > now {
                (end - now) / NANOS / 86400
            } else {
                0
            };
            assert(days == days_left(*t, now));
            assert(end <= 0xffff_ffff_ffff_ffff * 1_000_000_000) by (nonlinear_arith)
                requires
                    end == *t as u128 * NANOS,
                    NANOS == 1_000_000_000,
                    *t <= 0xffff_ffff_ffff_ffff,
            ;
            if days == 0 {
                Check::fail(label, "certificate has expired".to_owned())
            } else {
                Check::pass(
                    label,
                    text::join3(
                        "valid, ~",
                        text::decimal_u64(days as u64).as_str(),
                        " days remaining",
                    ),
                )
            }
        },
        Err(e) => Check::fail(label, text::join2("unreadable certificate: ", e.as_str())),
    }
}

/// The check of the certificate that would be served.
pub open spec fn tls_view(config: Config, p: CertProbe, now: u128) -> CheckView {
    match config.tls.mode {
        TlsMode::SelfSigned => pass("tls"@, "self-signed (development only)"@),
        TlsMode::Manual => match config.tls.manual {
            None => fail("tls"@, "tls.mode=manual but [tls.manual] missing"@),
            Some(m) => match p {
                CertProbe::Read(t) => expiry_view("tls (manual)"@, tls::number_or_text(t), now),
                CertProbe::Failed(e) => fail("tls (manual)"@, m.cert_file@ + ": "@ + e@),
            },
        },
        TlsMode::Acme => match p {
            CertProbe::Read(t) => expiry_view("tls (acme)"@, tls::number_or_text(t), now),
            CertProbe::Failed(_) => pass(
                "tls (acme)"@,
                "no cached cert yet; will issue on first boot"@,
            ),
        },
    }
}

/// The check of the certificate that would be served, by mode.
pub fn tls_check(config: &Config, p: &CertProbe, now: u128) -> (r: Check)
    ensures
        r@ == tls_view(*config, *p, now),
{
    match config.tls.mode {
        TlsMode::SelfSigned => Check::pass("tls", "self-signed (development only)".to_owned()),
        TlsMode::Manual => match &config.tls.manual {
            None => Check::fail("tls", "tls.mode=manual but [tls.manual] missing".to_owned()),
            Some(m) => match p {
                CertProbe::Read(t) => expiry_detail("tls (manual)", t, now),
                CertProbe::Failed(e) => Check::fail(
                    "tls (manual)",
                    text::join3(m.cert_file.as_str(), ": ", e.as_str()),
                ),
            },
        },
        TlsMode::Acme => match p {
            CertProbe::Read(t) => expiry_detail("tls (acme)", t, now),
            CertProbe::Failed(_) => Check::pass(
                "tls (acme)",
                "no cached cert yet; will issue on first boot".to_owned(),
            ),
        },
    }
}

/// The reminder about raw-TCP reachability, which cannot be probed from here.
pub open spec fn firewall_view(low: u16, high: u16) -> CheckView {
    CheckView {
        level: Level::Warn,
        label: "raw-tcp firewall"@,
        detail: "raw-TCP tunnels need ports "@ + text::decimal(low as nat) + "-"@ + text::decimal(
            high as nat,
        )
            + "/tcp open INBOUND on the host firewall + cloud security group (HTTPS tunnels need only :443); this cannot be verified externally — see DEPLOY.md"@,
    }
}

fn firewall_check(low: u16, high: u16) -> (r: Check)
    ensures
        r@ == firewall_view(low, high),
{
    let mut s = text::join3(
        "raw-TCP tunnels need ports ",
        text::decimal_u64(low as u64).as_str(),
        "-",
    );
    s.append(text::decimal_u64(high as u64).as_str());
    s.append(
        "/tcp open INBOUND on the host firewall + cloud security group (HTTPS tunnels need only :443); this cannot be verified externally — see DEPLOY.md",
    );
    Check::warn("raw-tcp firewall", s)
}

/// The checks of the certificate credentials, in the mode that needs them.
pub open spec fn acme_views(config: Config, p: AcmeProbe) -> Seq<CheckView> {
    if config.tls.mode != TlsMode::Acme {
        Seq::empty()
    } else {
        match config.tls.acme {
            None => seq![fail("acme config"@, "tls.mode=acme but [tls.acme] missing"@)],
            Some(a) => match p {
                AcmeProbe::NoToken(e) => seq![fail("acme token"@, e@)],
                AcmeProbe::Token(edit) => seq![
                    pass("acme token"@, "read "@ + a.cloudflare.api_token_file@),
                    match edit {
                        Ok(_) => pass("cloudflare"@, "Zone:DNS:Edit confirmed (probe TXT)"@),
                        Err(e) => fail("cloudflare"@, e@),
                    },
                ],
            },
        }
    }
}

fn acme_checks(config: &Config, p: &AcmeProbe) -> (r: Vec<Check>)
    ensures
        check_views(r@) == acme_views(*config, *p),
{
    let mut out: Vec<Check> = Vec::new();
    match config.tls.mode {
        TlsMode::Acme => match &config.tls.acme {
            None => {
                out.push(
                    Check::fail("acme config", "tls.mode=acme but [tls.acme] missing".to_owned()),
                );
            },
            Some(a) => match p {
                AcmeProbe::NoToken(e) => {
                    out.push(Check::fail("acme token", e.clone()));
                },
                AcmeProbe::Token(edit) => {
                    out.push(
                        Check::pass(
                            "acme token",
                            text::join2("read ", a.cloudflare.api_token_file.as_str()),
                        ),
                    );
                    match edit {
                        Ok(_) => {
                            out.push(
                                Check::pass(
                                    "cloudflare",
                                    "Zone:DNS:Edit confirmed (probe TXT)".to_owned(),
                                ),
                            );
                        },
                        Err(e) => {
                            out.push(Check::fail("cloudflare", e.clone()));
                        },
                    }
                },
            },
        },
        _ => {},
    }
    assert(check_views(out@) =~= acme_views(*config, *p));
    out
}

/// All checks, in the order they are reported.
pub open spec fn all_checks(config: Config, p: Probes, now: u128) -> Seq<CheckView> {
    let apex = config.server.domain@;
    seq![
        pass("config"@, "domain = "@ + apex),
        registry_view(p.registry, config.registry.db_path@),
        dns_view(p.apex, "dns apex"@, apex),
        dns_view(p.connect, "dns connect"@, config::connect_name(apex)),
        dns_view(p.wildcard, "dns wildcard"@, "etun-doctor-check."@ + apex),
        tls_view(config, p.cert, now),
        firewall_view(config.tcp.port_range@[0], config.tcp.port_range@[1]),
    ] + acme_views(config, p.acme)
}

/// Judge what the probes found.
pub fn run(config: &Config, p: &Probes, now: u128) -> (r: Vec<Check>)
    ensures
        check_views(r@) == all_checks(*config, *p, now),
{
    let apex = config.server.domain.as_str();
    let (low, high) = config.tcp.range();
    let mut out: Vec<Check> = Vec::new();
    out.push(Check::pass("config", text::join2("domain = ", apex)));
    out.push(registry_check(&p.registry, config.registry.db_path.as_str()));
    out.push(dns_check(&p.apex, "dns apex", apex));
    out.push(dns_check(&p.connect, "dns connect", config.connect_host().as_str()));
    out.push(
        dns_check(&p.wildcard, "dns wildcard", text::join2("etun-doctor-check.", apex).as_str()),
    );
    out.push(tls_check(config, &p.cert, now));
    out.push(firewall_check(low, high));
    let mut more = acme_checks(config, &p.acme);
    let ghost a = out@;
    let ghost b = more@;
    out.append(&mut more);
    assert(out@ =~= a + b);
    assert(check_views(out@) =~= check_views(a) + check_views(b));
    assert(check_views(a) =~= all_checks(*config, *p, now).take(7));
    assert(check_views(out@) =~= all_checks(*config, *p, now));
    out
}

/// How many checks have this severity.
pub open spec fn tally(s: Seq<CheckView>, level: Level) -> nat
    decreases s.len(),
{
    if s.len() == 0 {
        0
    } else {
        tally(s.drop_last(), level) + (if s.last().level == level {
            1nat
        } else {
            0nat
        })
    }
}

fn count(checks: &Vec<Check>, level: Level) -> (r: usize)
    ensures
        r == tally(check_views(checks@), level),
{
    let ghost cv = check_views(checks@);
    let mut n: usize = 0;
    let mut i: usize = 0;
    assert(cv.take(0) =~= Seq::<CheckView>::empty());
    while i < checks.len()
        invariant
            i <= checks@.len(),
            n <= i,
            cv == check_views(checks@),
            n == tally(cv.take(i as int), level),
        decreases checks@.len() - i,
    {
        proof {
            assert(cv.take(i + 1).drop_last() =~= cv.take(i as int));
            assert(cv.take(i + 1).last() == checks@[i as int]@);
        }
        if checks[i].level == level {
            n += 1;
        }
        i += 1;
    }
    assert(cv.take(i as int) =~= cv);
    n
}

/// The closing line of the report.
pub open spec fn closing(failed: nat, warned: nat) -> Seq<char> {
    if failed > 0 {
        text::decimal(failed) + " check(s) failed."@
    } else if warned > 0 {
        "All critical checks passed ("@ + text::decimal(warned) + " warning(s) — review above)."@
    } else {
        "All checks passed."@
    }
}

/// The closing line of the report, and whether the pre-flight passed: it does
/// exactly if no check failed.
pub fn conclude(checks: &Vec<Check>) -> (r: (String, bool))
    ensures
        r.1 == (tally(check_views(checks@), Level::Fail) == 0),
        r.0@ == closing(
            tally(check_views(checks@), Level::Fail),
            tally(check_views(checks@), Level::Warn),
        ),
{
    let failed: usize = count(checks, Level::Fail);
    let warned: usize = count(checks, Level::Warn);
    if failed > 0 {
        (
            text::join2(text::decimal_u64(failed as u64).as_str(), " check(s) failed."),
            false,
        )
    } else if warned > 0 {
        (
            text::join3(
                "All critical checks passed (",
                text::decimal_u64(warned as u64).as_str(),
                " warning(s) — review above).",
            ),
            true,
        )
    } else {
        ("All checks passed.".to_owned(), true)
    }
}

/// The number of checks of a level is the number of positions where it stands.
pub proof fn every_check_is_counted(s: Seq<CheckView>, level: Level)
    ensures
        tally(s, level) == s.filter(|c: CheckView| c.level == level).len(),
        tally(s, level) == 0 <==> forall|i: int| 0 <= i < s.len() ==> (#[trigger] s[i]).level != level,
    decreases s.len(),
{
    reveal(Seq::filter);
    if s.len() > 0 {
        every_check_is_counted(s.drop_last(), level);
        assert(forall|i: int| 0 <= i < s.len() - 1 ==> #[trigger] s[i] == s.drop_last()[i]);
        assert(s.last() == s[s.len() - 1]);
    }
}

/// The days that are left of a certificate are the whole days up to its end.
pub proof fn days_are_whole(not_after: u64, now: u128)
    ensures
        not_after * 1_000_000_000 <= now ==> days_left(not_after, now) == 0,
        not_after * 1_000_000_000 > now ==> days_left(not_after, now) * 86_400_000_000_000
            <= not_after * 1_000_000_000 - now < (days_left(not_after, now) + 1)
            * 86_400_000_000_000,
{
    if not_after * NANOS > now {
        let left = not_after * NANOS - now;
        let secs = left / 1_000_000_000;
        let days = secs / 86400;
        assert(days == days_left(not_after, now));
        assert(left == 1_000_000_000 * secs + left % 1_000_000_000);
        assert(secs == 86400 * days + secs % 86400);
    }
}

/// A certificate passes if and only if a whole day of it is left.
pub proof fn expired_certificate_fails(label: Seq<char>, t: u64, now: u128, e: Seq<char>)
    ensures
        expiry_view(label, Ok(t), now).level == (if t * 1_000_000_000 - now
            >= 86_400_000_000_000 {
            Level::Pass
        } else {
            Level::Fail
        }),
        expiry_view(label, Err(e), now).level == Level::Fail,
        expiry_view(label, Ok(t), now).label == label,
        expiry_view(label, Ok(t), now).level == Level::Pass ==> expiry_view(
            label,
            Ok(t),
            now,
        ).detail == "valid, ~"@ + text::decimal(days_left(t, now)) + " days remaining"@,
{
    days_are_whole(t, now);
}

/// Each name and the registry pass if and only if they were found in order.
pub proof fn probes_decide(
    p: DnsProbe,
    r: RegistryProbe,
    label: Seq<char>,
    host: Seq<char>,
    path: Seq<char>,
)
    ensures
        dns_view(p, label, host).label == label,
        dns_view(p, label, host).level == (match p {
            DnsProbe::Found(_) => Level::Pass,
            _ => Level::Fail,
        }),
        p matches DnsProbe::Found(ip) ==> dns_view(p, label, host).detail == host + " -> "@ + ip@,
        p matches DnsProbe::Failed(e) ==> dns_view(p, label, host).detail == host + ": "@ + e@,
        registry_view(r, path).label == "registry"@,
        registry_view(r, path).level == (match r {
            RegistryProbe::Good => Level::Pass,
            _ => Level::Fail,
        }),
        r matches RegistryProbe::Closed(e) ==> registry_view(r, path).detail == "cannot open "@ + path
            + ": "@ + e@,
{
}

/// A report covers the settings, the registry, three names, the certificate and
/// the firewall, in this order, and the issuer's access where one is used.
pub proof fn report_is_complete(config: Config, p: Probes, now: u128)
    ensures
        ({
            let all = all_checks(config, p, now);
            let apex = config.server.domain@;
            &&& all.len() >= 7
            &&& all[0].label == "config"@ && all[0].level == Level::Pass
            &&& all[1] == registry_view(p.registry, config.registry.db_path@)
            &&& all[2] == dns_view(p.apex, "dns apex"@, apex)
            &&& all[3] == dns_view(p.connect, "dns connect"@, "connect."@ + apex)
            &&& all[4] == dns_view(p.wildcard, "dns wildcard"@, "etun-doctor-check."@ + apex)
            &&& all[5] == tls_view(config, p.cert, now)
            &&& all[6].level == Level::Warn
            &&& config.tls.mode == TlsMode::Acme <==> all.len() > 7
            &&& config.tls.mode == TlsMode::Acme && config.tls.acme is None ==> all.len() == 8
                && all[7].level == Level::Fail
            &&& config.tls.mode == TlsMode::Acme && config.tls.acme is Some ==> {
                &&& p.acme is NoToken ==> all.len() == 8 && all[7].level == Level::Fail
                &&& p.acme matches AcmeProbe::Token(edit) ==> all.len() == 9 && all[7].level
                    == Level::Pass && all[8].level == (if edit is Ok {
                    Level::Pass
                } else {
                    Level::Fail
                })
            }
        }),
{
}

/// The certificate is judged as the settings say it comes.
pub proof fn certificate_is_judged_by_mode(config: Config, p: CertProbe, now: u128)
    ensures
        config.tls.mode == TlsMode::SelfSigned ==> tls_view(config, p, now).level == Level::Pass,
        config.tls.mode == TlsMode::Manual && config.tls.manual is None ==> tls_view(
            config,
            p,
            now,
        ).level == Level::Fail,
        config.tls.mode == TlsMode::Manual && config.tls.manual is Some && p is Failed ==> tls_view(
            config,
            p,
            now,
        ).level == Level::Fail,
        config.tls.mode == TlsMode::Acme && p is Failed ==> tls_view(config, p, now).level
            == Level::Pass,
        config.tls.mode == TlsMode::Acme ==> (p matches CertProbe::Read(t) ==> tls_view(config, p, now)
            == expiry_view("tls (acme)"@, tls::number_or_text(t), now)),
        config.tls.mode == TlsMode::Manual && config.tls.manual is Some ==> (p matches CertProbe::Read(
            t,
        ) ==> tls_view(config, p, now) == expiry_view("tls (manual)"@, tls::number_or_text(t), now)),
{
}

/// Failures are counted; without one, warnings are.
pub proof fn conclusion_counts_failures(failed: nat, warned: nat)
    ensures
        failed > 0 ==> closing(failed, warned) == text::decimal(failed) + " check(s) failed."@,
        failed == 0 && warned > 0 ==> text::decimal(warned).len() < closing(failed, warned).len(),
        closing(0, 0) == "All checks passed."@,
        forall|c: CheckView| (#[trigger] report_line(c)) == (match c.level {
            Level::Pass => "[ok  ] "@,
            Level::Warn => "[WARN] "@,
            Level::Fail => "[FAIL] "@,
        }) + text::padded(c.label, 22) + " "@ + c.detail,
{
    reveal_strlit("All critical checks passed (");
}

} // verus!
