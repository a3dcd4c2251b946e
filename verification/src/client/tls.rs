//! How the daemon trusts the relay's certificate.
use vstd::prelude::*;

use crate::client::supervisor;
use crate::text;

verus! {

/// How the daemon decides whether to trust the relay's certificate.
#[derive(Clone, Debug)]
pub enum TrustMode {
    /// The bundled public root set.
    System,
    /// Exactly this certificate, in DER.
    CustomRoot(Vec<u8>),
}

/// View of a [`TrustMode`].
pub enum TrustView {
    System,
    CustomRoot(Seq<u8>),
}

impl View for TrustMode {
    type V = TrustView;

    open spec fn view(&self) -> TrustView {
        match self {
            TrustMode::System => TrustView::System,
            TrustMode::CustomRoot(d) => TrustView::CustomRoot(d@),
        }
    }
}

/// The first certificate in a PEM text as DER, if the first one can be read.
pub uninterp spec fn pem_first(pem: Seq<u8>) -> Option<Seq<u8>>;

/// `rustls_pemfile::certs`, its first item: a function of the text alone.
#[verifier::external_body]
pub(crate) fn first_certificate(pem: &[u8]) -> (r: Option<Vec<u8>>)
    ensures
        match r {
            Some(d) => pem_first(pem@) == Some(d@),
            None => pem_first(pem@) is None,
        },
{
    let mut rest = pem;
    let first = rustls_pemfile::certs(&mut rest).next().and_then(|c| c.ok());
    first.map(|c| c.as_ref().to_vec())
}

/// A set of trusted roots, carried through unread.
#[verifier::external_type_specification]
#[verifier::external_body]
pub struct ExRootCertStore(rustls::RootCertStore);

/// The name a TLS client asks for and checks the certificate against, carried
/// through unread.
#[verifier::external_type_specification]
#[verifier::external_body]
pub struct ExServerName<'a>(rustls::pki_types::ServerName<'a>);

/// Why a certificate in DER cannot be a trusted root.
pub uninterp spec fn anchor_fault(der: Seq<u8>) -> Option<Seq<char>>;

/// Whether a set of roots holds this certificate in DER and nothing else.
pub uninterp spec fn trusts_only(roots: rustls::RootCertStore, der: Seq<u8>) -> bool;

/// Whether a set of roots is the one that `webpki_roots` bundles.
pub uninterp spec fn trusts_bundled(roots: rustls::RootCertStore) -> bool;

/// Whether a text names a server: it is a DNS name or an IP address.
pub uninterp spec fn is_server_name(host: Seq<char>) -> bool;

/// Whether a server name is the one that this text spells.
pub uninterp spec fn names_host(name: rustls::pki_types::ServerName<'static>, host: Seq<char>) -> bool;

/// `rustls::RootCertStore::empty` and `add`: whether and why the certificate is
/// refused is a function of its bytes alone, and one that is not becomes the
/// only root.
#[verifier::external_body]
fn only_root(der: &[u8]) -> (r: Result<rustls::RootCertStore, String>)
    ensures
        match r {
            Ok(roots) => anchor_fault(der@) is None && trusts_only(roots, der@),
            Err(e) => anchor_fault(der@) == Some(e@),
        },
{
    let mut roots = rustls::RootCertStore::empty();
    match roots.add(der.to_vec().into()) {
        Ok(()) => Ok(roots),
        Err(e) => Err(e.to_string()),
    }
}

/// `rustls::RootCertStore::empty`, extended by `webpki_roots::TLS_SERVER_ROOTS`:
/// the bundled roots and no others.
#[verifier::external_body]
fn bundled_roots() -> (r: rustls::RootCertStore)
    ensures
        trusts_bundled(r),
{
    let mut roots = rustls::RootCertStore::empty();
    roots.extend(webpki_roots::TLS_SERVER_ROOTS.iter().cloned());
    roots
}

/// `rustls::pki_types::ServerName::try_from` on a text: a function of the text
/// alone, with one error.
#[verifier::external_body]
fn read_server_name(host: &str) -> (r: Result<rustls::pki_types::ServerName<'static>, String>)
    ensures
        match r {
            Ok(name) => is_server_name(host@) && names_host(name, host@),
            Err(e) => !is_server_name(host@) && e@ == "invalid dns name"@,
        },
{
    match rustls::pki_types::ServerName::try_from(host.to_owned()) {
        Ok(name) => Ok(name),
        Err(e) => Err(e.to_string()),
    }
}

/// Trust exactly one certificate, in place of the public roots.
pub fn custom_roots(der: &[u8]) -> (r: Result<rustls::RootCertStore, String>)
    ensures
        match anchor_fault(der@) {
            Some(e) => r is Err && r->Err_0@ == "invalid relay CA certificate: "@ + e,
            None => r is Ok && trusts_only(r->Ok_0, der@),
        },
{
    match only_root(der) {
        Ok(roots) => Ok(roots),
        Err(e) => Err(text::join2("invalid relay CA certificate: ", e.as_str())),
    }
}

/// The roots that a way of trusting comes to.
pub fn trusted_roots(trust: &TrustMode) -> (r: Result<rustls::RootCertStore, String>)
    ensures
        match trust@ {
            TrustView::System => r is Ok && trusts_bundled(r->Ok_0),
            TrustView::CustomRoot(der) => match anchor_fault(der) {
                Some(e) => r is Err && r->Err_0@ == "invalid relay CA certificate: "@ + e,
                None => r is Ok && trusts_only(r->Ok_0, der),
            },
        },
{
    match trust {
        TrustMode::System => Ok(bundled_roots()),
        TrustMode::CustomRoot(der) => custom_roots(der.as_slice()),
    }
}

/// The name to ask a relay for: that of its control endpoint.
pub fn relay_server_name(relay: &str) -> (r: Result<
    rustls::pki_types::ServerName<'static>,
    String,
>)
    ensures
        match r {
            Ok(name) => names_host(name, supervisor::connect_name(relay@)),
            Err(e) => e@ == "invalid dns name"@,
        },
        r is Ok <==> is_server_name(supervisor::connect_name(relay@)),
{
    let host = supervisor::connect_host(relay);
    read_server_name(host.as_str())
}

} // verus!
