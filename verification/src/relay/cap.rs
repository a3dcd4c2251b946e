//! Caps on owned resources and their enforcement against live state.
use vstd::prelude::*;

use crate::proto::frames;
use crate::proto::frames::{ControlFrame, DenyCode, FrameView, Resource, ResourceView};
use crate::relay::crypto;
use crate::relay::ledger::RegistryView;
use crate::relay::registry::Registry;
use crate::relay::router;
use crate::relay::router::{Router, RouterView, SessionHandle};
use crate::text;

verus! {

/// What a gate hands the claim path for a given user.
///
/// When a cap drops below what a user owns, the oldest resources stay and the
/// newest over the cap are pruned. `DenyAll` prunes everything.
#[derive(Clone, Copy, Debug, PartialEq, Eq, Structural)]
pub enum CapDecision {
    /// No cap applies.
    Allow,
    /// At most this many owned resources.
    Cap(i64),
    /// No new claims.
    DenyAll,
}

/// A resource as it is shown in messages.
pub open spec fn resource_shown(r: ResourceView) -> Seq<char> {
    match r {
        ResourceView::Host(h) => "Host("@ + crypto::debug_string(h) + ")"@,
        ResourceView::Port(p) => "Port("@ + text::decimal(p as nat) + ")"@,
    }
}

/// A resource as it is shown in messages.
pub fn resource_text(r: &Resource) -> (s: String)
    ensures
        s@ == resource_shown(r@),
{
    match r {
        Resource::Host(h) => {
            let d = crypto::debug_of(h.as_str());
            text::join3("Host(", d.as_str(), ")")
        },
        Resource::Port(p) => {
            let d = text::decimal_u64(*p as u64);
            text::join3("Port(", d.as_str(), ")")
        },
    }
}

/// Frames addressed to sessions.
pub open spec fn posts(v: Seq<(SessionHandle, ControlFrame)>) -> Seq<(SessionHandle, FrameView)> {
    v.map_values(|p: (SessionHandle, ControlFrame)| (p.0, p.1@))
}

/// The message to a session whose tunnel was pruned.
pub open spec fn prune_notice(why: Seq<char>) -> spec_fn((SessionHandle, ResourceView)) -> (
    SessionHandle,
    FrameView,
) {
    |p: (SessionHandle, ResourceView)|
        (
            p.0,
            FrameView::Denied {
                code: DenyCode::LimitExceeded,
                message: "tunnel "@ + resource_shown(p.1) + " pruned: "@ + why,
            },
        )
}

/// Full hostnames of labels.
pub open spec fn fqdns(labels: Seq<Seq<char>>, domain: Seq<char>) -> Seq<Seq<char>> {
    labels.map_values(|l: Seq<char>| l + seq!['.'] + domain)
}

/// Live state: the registry, the routes, and the frames sent so far.
#[verifier::ext_equal]
pub struct LiveView {
    pub registry: RegistryView,
    pub router: RouterView,
    pub sent: Seq<(SessionHandle, FrameView)>,
}

impl LiveView {
    /// Prune a user to `cap`: the rows go, the routes of what went come down,
    /// and each session that served one is told. The answer is how much went.
    pub open spec fn prune(self, user: i64, cap: i64, why: Seq<char>) -> (Self, nat) {
        let (registry, gone) = self.registry.prune(user, cap);
        let hosts = fqdns(gone.0, self.registry.domain);
        (
            LiveView {
                registry,
                router: self.router.evicted(hosts, gone.1),
                sent: self.sent + self.router.evictions(hosts, gone.1).map_values(
                    prune_notice(why),
                ),
            },
            gone.0.len() + gone.1.len(),
        )
    }
}

/// The full hostname of each label.
pub fn compose(labels: &Vec<String>, domain: &str) -> (r: Vec<String>)
    ensures
        frames::names(r@) == fqdns(frames::names(labels@), domain@),
{
    let ghost lv = frames::names(labels@);
    let mut out: Vec<String> = Vec::new();
    let mut i: usize = 0;
    assert(frames::names(out@) =~= fqdns(lv, domain@).take(0));
    while i < labels.len()
        invariant
            i <= labels@.len(),
            lv == frames::names(labels@),
            frames::names(out@) == fqdns(lv, domain@).take(i as int),
        decreases labels@.len() - i,
    {
        let ghost done = out@;
        proof {
            reveal_strlit(".");
            assert("."@ =~= seq!['.']);
        }
        let h = text::join3(labels[i].as_str(), ".", domain);
        out.push(h);
        i += 1;
        assert(frames::names(out@) =~= frames::names(done).push(h@));
        assert(frames::names(out@) =~= fqdns(lv, domain@).take(i as int));
    }
    assert(fqdns(lv, domain@).take(i as int) =~= fqdns(lv, domain@));
    out
}

/// Prune what a user owns to `cap`, take down the routes of what went, and
/// append the message to each session that served one to `sent`. The answer is
/// how much went.
pub fn prune_live(
    registry: &mut Registry,
    router: &mut Router,
    sent: &mut Vec<(SessionHandle, ControlFrame)>,
    user_id: i64,
    cap: i64,
    why: &str,
) -> (r: usize)
    requires
        old(registry).wf(),
        old(router).wf(),
    ensures
        final(registry).wf(),
        final(router).wf(),
        ({
            let before = LiveView {
                registry: old(registry)@,
                router: old(router)@,
                sent: posts(old(sent)@),
            };
            let after = LiveView {
                registry: final(registry)@,
                router: final(router)@,
                sent: posts(final(sent)@),
            };
            (after, r as nat) == before.prune(user_id, cap, why@)
        }),
{
    let ghost s0 = posts(sent@);
    let (labels, ports) = match registry.prune_owned_to_cap(user_id, cap) {
        Ok(p) => p,
        Err(_) => (Vec::new(), Vec::new()),
    };
    let hosts = compose(&labels, registry.domain());
    let evicted = router.evict_routes(&hosts, &ports);
    let ghost ev = router::notices(evicted@);
    let ghost f = prune_notice(why@);
    let mut i: usize = 0;
    assert(posts(sent@) =~= s0 + ev.map_values(f).take(0));
    while i < evicted.len()
        invariant
            i <= evicted@.len(),
            ev == router::notices(evicted@),
            f == prune_notice(why@),
            posts(sent@) == s0 + ev.map_values(f).take(i as int),
        decreases evicted@.len() - i,
    {
        let ghost done = sent@;
        let res = resource_text(&evicted[i].1);
        let mut message = text::join3("tunnel ", res.as_str(), " pruned: ");
        message.append(why);
        let frame = frames::denied(DenyCode::LimitExceeded, message);
        let handle = evicted[i].0;
        sent.push((handle, frame));
        i += 1;
        assert(posts(sent@) =~= posts(done).push((handle, frame@)));
        assert(posts(sent@) =~= s0 + ev.map_values(f).take(i as int));
    }
    proof {
        assert(ev.map_values(f).take(i as int) =~= ev.map_values(f));
        assert(frames::names(labels@).len() == labels@.len());
    }
    labels.len() + ports.len()
}

/// Pruning brings an account within its cap, and no pruned hostname or port is
/// routed any more.
pub proof fn pruned_account_fits(live: LiveView, user: i64, cap: i64, why: Seq<char>)
    requires
        live.registry.wf(),
    ensures
        ({
            let after = live.prune(user, cap, why).0;
            let gone = live.registry.prune(user, cap).1;
            &&& after.registry.owned_count(user) <= (if cap < 0 {
                0int
            } else {
                cap as int
            })
            &&& forall|h: Seq<char>|
                fqdns(gone.0, live.registry.domain).contains(h)
                    ==> !#[trigger] after.router.http.dom().contains(h)
            &&& forall|p: u16|
                gone.1.contains(p) ==> !#[trigger] after.router.tcp.dom().contains(p)
        }),
{
    crate::relay::ownership::pruning_keeps_the_oldest(live.registry, user, cap);
}

/// An account within its cap is left alone: no row, no route and no message.
pub proof fn account_within_cap_is_spared(live: LiveView, user: i64, cap: i64, why: Seq<char>)
    requires
        live.registry.wf(),
        live.registry.owned_count(user) <= cap,
    ensures
        live.prune(user, cap, why) == (live, 0nat),
{
    let r = live.registry;
    crate::relay::ledger::lemma_by_age(r, user);
    let d = r.doomed(user, cap);
    assert(d =~= Seq::empty());
    crate::relay::rows::lemma_filter_all(
        r.hosts,
        crate::relay::ledger::spared_host(user, d),
    );
    crate::relay::rows::lemma_filter_all(
        r.ports,
        crate::relay::ledger::spared_port(user, d),
    );
    reveal(Seq::filter);
    let gone = r.prune(user, cap).1;
    assert(gone.0 =~= Seq::empty());
    assert(gone.1 =~= Seq::empty());
    let hosts = fqdns(gone.0, r.domain);
    assert(hosts =~= Seq::empty());
    assert(live.router.evicted(hosts, gone.1).http =~= live.router.http);
    assert(live.router.evicted(hosts, gone.1).tcp =~= live.router.tcp);
    assert(live.router.evictions(hosts, gone.1) =~= Seq::empty());
    assert(live.prune(user, cap, why).0.sent =~= live.sent);
    assert(r.prune(user, cap).0 =~= r);
}

/// Pruning an account takes down exactly the routes of what it lost, and tells
/// each session that served one of them why, as a reached limit; what was sent
/// before stays sent. The answer is how many resources went.
pub proof fn pruned_sessions_are_told(
    live: LiveView,
    user: i64,
    cap: i64,
    why: Seq<char>,
    host: Seq<char>,
    port: u16,
    i: int,
)
    ensures
        ({
            let (after, n) = live.prune(user, cap, why);
            let gone = live.registry.prune(user, cap).1;
            let lost = exists|k: int|
                0 <= k < gone.0.len() && host == #[trigger] gone.0[k] + seq!['.']
                    + live.registry.domain;
            &&& after.registry == live.registry.prune(user, cap).0
            &&& n == gone.0.len() + gone.1.len()
            &&& after.router.http.dom().contains(host) == (live.router.http.dom().contains(host)
                && !lost)
            &&& after.router.http.dom().contains(host) ==> after.router.http[host]
                == live.router.http[host]
            &&& after.router.tcp.dom().contains(port) == (live.router.tcp.dom().contains(port)
                && !gone.1.contains(port))
            &&& after.router.tcp.dom().contains(port) ==> after.router.tcp[port]
                == live.router.tcp[port]
            &&& live.sent.is_prefix_of(after.sent)
            &&& lost && live.router.http.dom().contains(host) ==> after.sent.contains(
                (
                    live.router.http[host],
                    FrameView::Denied {
                        code: DenyCode::LimitExceeded,
                        message: "tunnel "@ + resource_shown(ResourceView::Host(host))
                            + " pruned: "@ + why,
                    },
                ),
            )
            &&& gone.1.contains(port) && live.router.tcp.dom().contains(port)
                ==> after.sent.contains(
                (
                    live.router.tcp[port],
                    FrameView::Denied {
                        code: DenyCode::LimitExceeded,
                        message: "tunnel "@ + resource_shown(ResourceView::Port(port))
                            + " pruned: "@ + why,
                    },
                ),
            )
            &&& live.sent.len() <= i < after.sent.len() ==> (after.sent[i].1
                matches FrameView::Denied { code, .. } && code == DenyCode::LimitExceeded)
        }),
{
    let (after, n) = live.prune(user, cap, why);
    let gone = live.registry.prune(user, cap).1;
    let hosts = fqdns(gone.0, live.registry.domain);
    let told = live.router.evictions(hosts, gone.1);
    let f = prune_notice(why);
    let m = live.sent.len() as int;
    router::eviction_is_exact(live.router, hosts, gone.1, host, port, i);
    assert(hosts.contains(host) == exists|k: int|
        0 <= k < gone.0.len() && host == #[trigger] gone.0[k] + seq!['.'] + live.registry.domain) by {
        if hosts.contains(host) {
            let k = choose|k: int| 0 <= k < hosts.len() && hosts[k] == host;
            assert(host == gone.0[k] + seq!['.'] + live.registry.domain);
        }
        if exists|k: int|
            0 <= k < gone.0.len() && host == #[trigger] gone.0[k] + seq!['.']
                + live.registry.domain {
            let k = choose|k: int|
                0 <= k < gone.0.len() && host == #[trigger] gone.0[k] + seq!['.']
                    + live.registry.domain;
            assert(hosts[k] == host);
        }
    }
    assert(after.sent.subrange(0, m) =~= live.sent);
    if hosts.contains(host) && live.router.http.dom().contains(host) {
        let j = choose|j: int|
            0 <= j < told.len() && told[j] == (live.router.http[host], ResourceView::Host(host));
        assert(after.sent[m + j] == f(told[j]));
    }
    if gone.1.contains(port) && live.router.tcp.dom().contains(port) {
        let j = choose|j: int|
            0 <= j < told.len() && told[j] == (live.router.tcp[port], ResourceView::Port(port));
        assert(after.sent[m + j] == f(told[j]));
    }
    if m <= i < after.sent.len() {
        assert(after.sent[i] == f(told[i - m]));
    }
}

/// A resource is shown by what it is and its name or number.
pub proof fn resources_are_shown(p: u16, h: Seq<char>)
    ensures
        resource_shown(ResourceView::Port(p)) == "Port("@ + text::decimal(p as nat) + ")"@,
        resource_shown(ResourceView::Host(h)) == "Host("@ + crypto::debug_string(h) + ")"@,
{
}

} // verus!
