//! Whose credential it is, and what its plan permits.
//!
//! Local tokens and licence keys are both presented as a bearer token. Local
//! tokens come first and are never coupled to the licence service.
use vstd::prelude::*;

use crate::relay::auth::Authenticator;
use crate::relay::cap::CapDecision;
use crate::relay::entitlement;
use crate::relay::entitlement::EntitlementGate;
use crate::relay::ledger::RegistryView;
use crate::relay::polar;
use crate::relay::polar::{AuthStep, AuthStepView, PolarGate};
use crate::relay::registry::Registry;

verus! {

/// What a presented credential comes to before the licence service is asked: a
/// local token decides; anything else is a licence key where licences are
/// sold, and nobody's elsewhere.
pub open spec fn presented(
    registry: RegistryView,
    licences: Option<polar::GateView>,
    token: Seq<char>,
    now: i64,
) -> (RegistryView, AuthStepView) {
    match registry.authenticate(token) {
        Some(user) => (registry, AuthStepView::Done(Some(user))),
        None => match licences {
            Some(gate) => gate.start(registry, token, now),
            None => (registry, AuthStepView::Done(None)),
        },
    }
}

/// View of licences that may not be sold.
pub open spec fn licence_view(licences: Option<&PolarGate>) -> Option<polar::GateView> {
    match licences {
        Some(g) => Some(g@),
        None => None,
    }
}

/// View of entitlements that may not be installed.
pub open spec fn entitlement_view(entitlements: Option<&EntitlementGate>) -> Option<
    entitlement::GateView,
> {
    match entitlements {
        Some(g) => Some(g@),
        None => None,
    }
}

/// First step of authenticating a presented credential, local tokens first.
pub fn authenticate(
    registry: &mut Registry,
    licences: Option<&PolarGate>,
    token: &str,
    now: i64,
) -> (r: AuthStep)
    requires
        old(registry).wf(),
        licences is Some ==> licences->0.wf(),
    ensures
        final(registry).wf(),
        (final(registry)@, r@) == presented(old(registry)@, licence_view(licences), token@, now),
{
    match registry.authenticate(token) {
        Some(user) => AuthStep::Done(Some(user)),
        None => match licences {
            Some(gate) => gate.start_auth(registry, token, now),
            None => AuthStep::Done(None),
        },
    }
}

/// What the plan of an account permits: signed entitlements decide where they
/// are installed, else licences, and else nothing is limited.
pub open spec fn permitted(
    entitlements: Option<entitlement::GateView>,
    licences: Option<polar::GateView>,
    user: Seq<char>,
    now: i64,
) -> CapDecision {
    match (entitlements, licences) {
        (Some(e), _) => e.cap_for(user, now),
        (None, Some(l)) => l.cap_for(user, now),
        (None, None) => CapDecision::Allow,
    }
}

/// What the plan of an account permits.
pub fn decision(
    entitlements: Option<&EntitlementGate>,
    licences: Option<&PolarGate>,
    user_name: &str,
    now: i64,
) -> (r: CapDecision)
    requires
        entitlements is Some ==> entitlements->0.wf(),
    ensures
        r == permitted(
            entitlement_view(entitlements),
            licence_view(licences),
            user_name@,
            now,
        ),
{
    match (entitlements, licences) {
        (Some(e), _) => e.cap_for(user_name, now),
        (None, Some(l)) => l.cap_for(user_name, now),
        (None, None) => CapDecision::Allow,
    }
}

/// A local token authenticates as its user without the licence service, whatever
/// licences are cached, and changes nothing; the service is asked only about
/// credentials that are no local token, and only where licences are sold.
pub proof fn local_tokens_come_first(
    registry: RegistryView,
    licences: Option<polar::GateView>,
    token: Seq<char>,
    now: i64,
)
    ensures
        registry.authenticate(token) is Some ==> presented(registry, licences, token, now) == (
            registry,
            AuthStepView::Done(registry.authenticate(token)),
        ),
        presented(registry, licences, token, now).1 is Validate ==> registry.authenticate(token)
            is None && licences is Some,
{
}

/// A token that is neither local nor a licence key is nobody's; one that is not
/// local is a matter for the licences, where there are any.
pub proof fn other_tokens_are_licence_keys(
    registry: RegistryView,
    licences: Option<polar::GateView>,
    token: Seq<char>,
    now: i64,
)
    requires
        registry.authenticate(token) is None,
    ensures
        licences is None ==> presented(registry, licences, token, now) == (
            registry,
            AuthStepView::Done(None),
        ),
        licences matches Some(gate) ==> presented(registry, licences, token, now) == gate.start(
            registry,
            token,
            now,
        ),
{
}

/// Entitlements decide where there are any, licences otherwise; without either
/// everything is allowed.
pub proof fn entitlements_decide_first(
    entitlements: Option<entitlement::GateView>,
    licences: Option<polar::GateView>,
    user: Seq<char>,
    now: i64,
)
    ensures
        entitlements matches Some(e) ==> permitted(entitlements, licences, user, now) == e.cap_for(
            user,
            now,
        ),
        entitlements is None ==> (licences matches Some(l) ==> permitted(
            entitlements,
            licences,
            user,
            now,
        ) == l.cap_for(user, now)),
        entitlements is None && licences is None ==> permitted(entitlements, licences, user, now)
            == CapDecision::Allow,
{
}

} // verus!
