//! Certificates and the choice of one by server name.
//!
//! The resolver is the first line of junk rejection: a client whose server name
//! is not under the relay's domain gets no certificate, and its handshake ends
//! there.
use vstd::prelude::*;

use crate::text;

use rustls::pki_types::pem::PemObject;

verus! {

/// A certificate chain with its signing key, carried through unread.
#[verifier::external_type_specification]
#[verifier::external_body]
pub struct ExCertifiedKey(rustls::sign::CertifiedKey);

/// Hands out the active certificate for any name under the relay's domain.
pub struct SniResolver<C> {
    pub cert: Option<C>,
    pub apex: String,
    pub suffix: String,
}

/// A name under a domain: the domain itself, or anything below it.
pub open spec fn under(apex: Seq<char>, suffix: Seq<char>, name: Seq<char>) -> bool {
    name == apex || suffix.is_suffix_of(name)
}

impl<C> SniResolver<C> {
    /// A resolver for `domain` with no certificate yet.
    pub fn new(domain: &str) -> (r: Self)
        ensures
            r.cert is None,
            r.apex@ == domain@,
            r.suffix@ == "."@ + domain@,
    {
        SniResolver { cert: None, apex: domain.to_owned(), suffix: text::join2(".", domain) }
    }

    /// Install or replace the active certificate.
    pub fn install(&mut self, cert: C)
        ensures
            final(self).cert == Some(cert),
            final(self).apex == old(self).apex,
            final(self).suffix == old(self).suffix,
    {
        self.cert = Some(cert);
    }

    /// The certificate for a client that asks for `name`, if it gets one.
    pub fn resolve(&self, name: Option<&str>) -> (r: Option<&C>)
        ensures
            match r {
                Some(c) => self.cert == Some(*c) && name is Some && under(
                    self.apex@,
                    self.suffix@,
                    name->0@,
                ),
                None => self.cert is None || name is None || !under(
                    self.apex@,
                    self.suffix@,
                    name->0@,
                ),
            },
    {
        match name {
            Some(n) => if text::same(n, self.apex.as_str()) || text::ends_with(
                n,
                self.suffix.as_str(),
            ) {
                match &self.cert {
                    Some(c) => Some(c),
                    None => None,
                }
            } else {
                None
            },
            None => None,
        }
    }
}

/// The names a wildcard certificate of a domain covers.
pub open spec fn wildcard_names(domain: Seq<char>) -> Seq<Seq<char>> {
    seq![domain, "*."@ + domain]
}

/// The names a wildcard certificate of a domain covers: the domain and every
/// label below it.
pub fn certificate_names(domain: &str) -> (r: Vec<String>)
    ensures
        text::all_of(r@) == wildcard_names(domain@),
{
    let mut out: Vec<String> = Vec::new();
    out.push(domain.to_owned());
    out.push(text::join2("*.", domain));
    assert(text::all_of(out@) =~= wildcard_names(domain@));
    out
}

/// The certificates in a PEM text as DER, or why the text could not be read.
pub uninterp spec fn pem_chain(pem: Seq<u8>) -> Result<Seq<Seq<u8>>, Seq<char>>;

/// The first certificate in a PEM text as DER, if the first section can be
/// read.
pub uninterp spec fn pem_leaf(pem: Seq<u8>) -> Option<Seq<u8>>;

/// Why no private key could be read from a PEM text.
pub uninterp spec fn pem_key_unread(pem: Seq<u8>) -> Option<Seq<char>>;

/// Whether `rustls::sign::CertifiedKey::new`, given this chain in DER and a
/// signer made of the private key in this PEM text, can give this value.
pub uninterp spec fn certified(
    ck: rustls::sign::CertifiedKey,
    chain: Seq<Seq<u8>>,
    key_pem: Seq<u8>,
) -> bool;

/// Whether `rustls::sign::CertifiedKey::new`, given this chain in DER and a
/// signer made of this private key in PKCS#8, can give this value.
pub uninterp spec fn certified_der(
    ck: rustls::sign::CertifiedKey,
    chain: Seq<Seq<u8>>,
    key: Seq<u8>,
) -> bool;

/// When a certificate in DER expires, in seconds since the epoch, or why it
/// could not be read.
pub uninterp spec fn der_not_after(der: Seq<u8>) -> Result<i64, Seq<char>>;

/// Views of a list of byte strings.
pub open spec fn blobs(v: Seq<Vec<u8>>) -> Seq<Seq<u8>> {
    v.map_values(|b: Vec<u8>| b@)
}

/// `rustls::pki_types::CertificateDer::pem_slice_iter`, collected: a function of
/// the text alone.
#[verifier::external_body]
fn read_pem_chain(pem: &[u8]) -> (r: Result<Vec<Vec<u8>>, String>)
    ensures
        match r {
            Ok(v) => pem_chain(pem@) == Ok::<Seq<Seq<u8>>, Seq<char>>(blobs(v@)),
            Err(e) => pem_chain(pem@) == Err::<Seq<Seq<u8>>, Seq<char>>(e@),
        },
{
    rustls::pki_types::CertificateDer::pem_slice_iter(pem)
        .map(|c| c.map(|d| d.as_ref().to_vec()))
        .collect::<Result<Vec<_>, _>>()
        .map_err(|e| e.to_string())
}

/// `rustls::pki_types::CertificateDer::pem_slice_iter`, its first item: a
/// function of the text alone.
#[verifier::external_body]
fn read_pem_leaf(pem: &[u8]) -> (r: Option<Vec<u8>>)
    ensures
        match r {
            Some(v) => pem_leaf(pem@) == Some(v@),
            None => pem_leaf(pem@) is None,
        },
{
    rustls::pki_types::CertificateDer::pem_slice_iter(pem)
        .next()
        .and_then(|c| c.ok())
        .map(|c| c.as_ref().to_vec())
}

/// `rustls::pki_types::PrivateKeyDer::from_pem_slice`, then
/// `rustls::crypto::ring::sign::any_supported_type`, then
/// `rustls::sign::CertifiedKey::new`. Whether and why no key can be read is a
/// function of the text alone. That a signer takes the key is not: an ECDSA key
/// draws on the random source, so all that is said of such a failure is its one
/// error, with `true` beside it. The chain is kept as it is given.
#[verifier::external_body]
fn certify_pem(chain: Vec<Vec<u8>>, key_pem: &[u8]) -> (r: Result<
    rustls::sign::CertifiedKey,
    (bool, String),
>)
    ensures
        match r {
            Ok(ck) => pem_key_unread(key_pem@) is None && certified(
                ck,
                blobs(chain@),
                key_pem@,
            ),
            Err((read, why)) => if read {
                pem_key_unread(key_pem@) is None && why@ == signer_error()
            } else {
                pem_key_unread(key_pem@) == Some(why@)
            },
        },
{
    let certs = chain.into_iter().map(rustls::pki_types::CertificateDer::from).collect();
    match rustls::pki_types::PrivateKeyDer::from_pem_slice(key_pem) {
        Err(e) => Err((false, e.to_string())),
        Ok(key) => match rustls::crypto::ring::sign::any_supported_type(&key) {
            Err(e) => Err((true, e.to_string())),
            Ok(signer) => Ok(rustls::sign::CertifiedKey::new(certs, signer)),
        },
    }
}

/// `x509_parser::parse_x509_certificate` and the timestamp of its `notAfter`: a
/// function of the bytes alone.
#[verifier::external_body]
pub(crate) fn read_not_after(der: &[u8]) -> (r: Result<i64, String>)
    ensures
        match r {
            Ok(t) => der_not_after(der@) == Ok::<i64, Seq<char>>(t),
            Err(e) => der_not_after(der@) == Err::<i64, Seq<char>>(e@),
        },
{
    match x509_parser::parse_x509_certificate(der) {
        Ok((_, cert)) => Ok(cert.validity().not_after.timestamp()),
        Err(e) => Err(e.to_string()),
    }
}

/// Whether `rcgen::generate_simple_self_signed`, asked for these names, can give
/// this certificate in DER with this key in PKCS#8.
pub uninterp spec fn made_for(names: Seq<Seq<char>>, cert: Seq<u8>, key: Seq<u8>) -> bool;

/// All characters are ASCII.
pub open spec fn ascii(s: Seq<char>) -> bool {
    forall|i: int| 0 <= i < s.len() ==> (#[trigger] s[i]) as u32 <= 0x7f
}

/// Why a name cannot stand in a certificate.
pub open spec fn name_error(name: Seq<char>) -> Seq<char> {
    "Invalid IA5String: '"@ + name + "'"@
}

/// The error of a random source that gave nothing.
pub open spec fn random_error() -> Seq<char> {
    "Unspecified ring error"@
}

/// The error of a key that no signer takes.
pub open spec fn signer_error() -> Seq<char> {
    "unexpected error: failed to parse private key as RSA, ECDSA, or EdDSA"@
}

/// No name is refused before the one at `i`, and that one is.
pub open spec fn first_refused(names: Seq<Seq<char>>, i: int) -> bool {
    &&& 0 <= i < names.len()
    &&& !ascii(names[i])
    &&& forall|j: int| 0 <= j < i ==> ascii(#[trigger] names[j])
}

/// `rcgen::generate_simple_self_signed`: a certificate in DER for these names,
/// and its key in PKCS#8. Both rest on a random key; all that is said of them
/// is that they are one of the outcomes for these names, and that the
/// certificate is not empty, as its encoding is a sequence. A name that is not
/// ASCII is never certified; the first such is the error, unless the random
/// source failed before the names were read. Names that are all ASCII fail with
/// the random source alone, and when that happens is not said. It panics where
/// that source fails between making the key and reading it back.
#[verifier::external_body]
fn generate_certificate(names: Vec<String>) -> (r: Result<(Vec<u8>, Vec<u8>), String>)
    ensures
        match r {
            Ok((cert, key)) => {
                &&& cert@.len() > 0
                &&& made_for(text::all_of(names@), cert@, key@)
                &&& forall|i: int| 0 <= i < names@.len() ==> ascii((#[trigger] names@[i])@)
            },
            Err(e) => e@ == random_error() || exists|i: int|
                #[trigger] first_refused(text::all_of(names@), i) && e@ == name_error(
                    names@[i]@,
                ),
        },
{
    match rcgen::generate_simple_self_signed(names) {
        Ok(g) => Ok((g.cert.der().to_vec(), g.key_pair.serialize_der())),
        Err(e) => Err(e.to_string()),
    }
}

/// `rustls::crypto::ring::sign::any_supported_type` on a PKCS#8 key and
/// `rustls::sign::CertifiedKey::new`: the certificate is the whole chain, and
/// there is one error. Nothing is said of which keys are supported: reading an
/// ECDSA key draws on the random source.
#[verifier::external_body]
fn certify_der(cert: Vec<u8>, key: Vec<u8>) -> (r: Result<rustls::sign::CertifiedKey, String>)
    ensures
        match r {
            Ok(ck) => certified_der(ck, seq![cert@], key@),
            Err(e) => e@ == signer_error(),
        },
{
    let key = rustls::pki_types::PrivateKeyDer::Pkcs8(key.into());
    match rustls::crypto::ring::sign::any_supported_type(&key) {
        Ok(signer) => Ok(rustls::sign::CertifiedKey::new(vec![cert.into()], signer)),
        Err(e) => Err(e.to_string()),
    }
}

/// What a generated certificate in DER comes to, once a signer was asked to
/// take its key: both together, or the signer's error.
pub fn self_signed_from(
    cert: Vec<u8>,
    certified: Result<rustls::sign::CertifiedKey, String>,
) -> (r: Result<(rustls::sign::CertifiedKey, Vec<u8>), String>)
    ensures
        match certified {
            Ok(ck) => r == Ok::<(rustls::sign::CertifiedKey, Vec<u8>), String>((ck, cert)),
            Err(e) => r == Err::<(rustls::sign::CertifiedKey, Vec<u8>), String>(e),
        },
{
    match certified {
        Ok(ck) => Ok((ck, cert)),
        Err(e) => Err(e),
    }
}

/// Generate a self-signed certificate covering `domain` and its labels: the
/// signing material, and the certificate in DER. Rests on a random key. A
/// domain that is not ASCII always fails, and is named in the error unless the
/// random source failed first; for an ASCII domain only the random source and
/// the signer can fail.
pub fn self_signed(domain: &str) -> (r: Result<(rustls::sign::CertifiedKey, Vec<u8>), String>)
    ensures
        match r {
            Ok((ck, der)) => {
                &&& ascii(domain@)
                &&& der@.len() > 0
                &&& exists|key: Seq<u8>| #[trigger]
                    made_for(wildcard_names(domain@), der@, key) && certified_der(
                        ck,
                        seq![der@],
                        key,
                    )
            },
            Err(e) => if ascii(domain@) {
                e@ == random_error() || e@ == signer_error()
            } else {
                e@ == random_error() || e@ == name_error(domain@)
            },
        },
{
    let names = certificate_names(domain);
    proof {
        if ascii(domain@) {
            lemma_wildcard_ascii(domain@);
        }
        assert(text::all_of(names@).len() == 2);
        assert(names@[0]@ == text::all_of(names@)[0]);
        assert forall|i: int| first_refused(wildcard_names(domain@), i) implies i == 0 by {
            if i == 1 {
                assert(ascii(wildcard_names(domain@)[0]));
            }
        }
    }
    match generate_certificate(names) {
        Ok((cert, key)) => {
            let certified = certify_der(copy_bytes(&cert), key);
            self_signed_from(cert, certified)
        },
        Err(e) => Err(e),
    }
}

/// The wildcard name is ASCII where the domain is.
proof fn lemma_wildcard_ascii(domain: Seq<char>)
    requires
        ascii(domain),
    ensures
        ascii("*."@ + domain),
{
    reveal_strlit("*.");
    let w = "*."@ + domain;
    assert forall|i: int| 0 <= i < w.len() implies (#[trigger] w[i]) as u32 <= 0x7f by {
        if i >= 2 {
            assert(w[i] == domain[i - 2]);
        }
    }
}

fn copy_bytes(v: &Vec<u8>) -> (r: Vec<u8>)
    ensures
        r@ == v@,
{
    let mut out: Vec<u8> = Vec::new();
    let mut i: usize = 0;
    while i < v.len()
        invariant
            i <= v@.len(),
            out@ == v@.take(i as int),
        decreases v@.len() - i,
    {
        out.push(v[i]);
        i += 1;
        assert(out@ =~= v@.take(i as int));
    }
    assert(out@ =~= v@);
    out
}

/// What stands against reading a certificate chain and a key, both in PEM.
pub open spec fn pem_fault(
    chain: Result<Seq<Seq<u8>>, Seq<char>>,
    key: Option<Seq<char>>,
) -> Option<Seq<char>> {
    match chain {
        Err(e) => Some("parsing certificate chain: "@ + e),
        Ok(c) => if c.len() == 0 {
            Some("no certificates found in PEM chain"@)
        } else {
            match key {
                Some(why) => Some("parsing private key: "@ + why),
                None => None,
            }
        },
    }
}

/// The error of a private key that could not be used, `read` when it could at
/// least be read.
pub fn key_error(read: bool, why: &str) -> (r: String)
    ensures
        r@ == (if read {
            "unsupported private key: "@ + why@
        } else {
            "parsing private key: "@ + why@
        }),
{
    if read {
        text::join2("unsupported private key: ", why)
    } else {
        text::join2("parsing private key: ", why)
    }
}

/// What it comes to that a signer was asked to take a key: the signing material,
/// or the error of the key.
pub fn certified_key_from(
    outcome: Result<rustls::sign::CertifiedKey, (bool, String)>,
) -> (r: Result<rustls::sign::CertifiedKey, String>)
    ensures
        match outcome {
            Ok(ck) => r == Ok::<rustls::sign::CertifiedKey, String>(ck),
            Err((read, why)) => r is Err && r->Err_0@ == (if read {
                "unsupported private key: "@ + why@
            } else {
                "parsing private key: "@ + why@
            }),
        },
{
    match outcome {
        Ok(ck) => Ok(ck),
        Err((read, why)) => Err(key_error(read, why.as_str())),
    }
}

/// Build the signing material from a certificate chain and a private key, both
/// in PEM: it serves exactly this chain with this key. Texts that can be read
/// fail only where no signer takes the key.
pub fn certified_key_from_pem(chain_pem: &[u8], key_pem: &[u8]) -> (r: Result<
    rustls::sign::CertifiedKey,
    String,
>)
    ensures
        match pem_fault(pem_chain(chain_pem@), pem_key_unread(key_pem@)) {
            Some(e) => r is Err && r->Err_0@ == e,
            None => match r {
                Ok(ck) => certified(ck, pem_chain(chain_pem@)->Ok_0, key_pem@),
                Err(e) => e@ == "unsupported private key: "@ + signer_error(),
            },
        },
{
    let chain = match read_pem_chain(chain_pem) {
        Ok(c) => c,
        Err(e) => {
            return Err(text::join2("parsing certificate chain: ", e.as_str()));
        },
    };
    assert(blobs(chain@).len() == chain@.len());
    if chain.len() == 0 {
        return Err("no certificates found in PEM chain".to_owned());
    }
    certified_key_from(certify_pem(chain, key_pem))
}

/// The first certificate in a PEM chain, as DER.
pub fn first_cert_der(chain_pem: &[u8]) -> (r: Result<Vec<u8>, String>)
    ensures
        match r {
            Ok(d) => pem_leaf(chain_pem@) == Some(d@),
            Err(e) => pem_leaf(chain_pem@) is None && e@ == "no certificate in PEM chain"@,
        },
{
    match read_pem_leaf(chain_pem) {
        Some(d) => Ok(d),
        None => Err("no certificate in PEM chain".to_owned()),
    }
}

/// When a certificate expires, given what reading it gave.
pub open spec fn expiry(read: Result<i64, Seq<char>>) -> Result<u64, Seq<char>> {
    match read {
        Err(e) => Err("parsing leaf certificate: "@ + e),
        Ok(t) => if t < 0 {
            Err("certificate notAfter is before the unix epoch"@)
        } else {
            Ok(t as u64)
        },
    }
}

/// View of a fallible number.
pub open spec fn number_or_text(r: Result<u64, String>) -> Result<u64, Seq<char>> {
    match r {
        Ok(n) => Ok(n),
        Err(e) => Err(e@),
    }
}

/// When a certificate expires, given what reading it gave.
pub fn expiry_of(read: Result<i64, String>) -> (r: Result<u64, String>)
    ensures
        number_or_text(r) == expiry(
            match read {
                Ok(t) => Ok(t),
                Err(e) => Err(e@),
            },
        ),
{
    match read {
        Err(e) => Err(text::join2("parsing leaf certificate: ", e.as_str())),
        Ok(t) => if t < 0 {
            Err("certificate notAfter is before the unix epoch".to_owned())
        } else {
            Ok(t as u64)
        },
    }
}

/// The expiry of the leaf certificate in a PEM chain, in seconds since the
/// epoch.
pub fn cert_not_after(chain_pem: &[u8]) -> (r: Result<u64, String>)
    ensures
        number_or_text(r) == (match pem_leaf(chain_pem@) {
            None => Err("no certificate in PEM chain"@),
            Some(der) => expiry(der_not_after(der)),
        }),
{
    match first_cert_der(chain_pem) {
        Err(e) => Err(e),
        Ok(der) => expiry_of(read_not_after(der.as_slice())),
    }
}

/// A resolver for a domain serves exactly the domain and what lies below it: a
/// name that merely ends in the same letters gets nothing.
pub proof fn only_the_domain_is_served(domain: Seq<char>, name: Seq<char>)
    ensures
        under(domain, "."@ + domain, domain),
        forall|label: Seq<char>| #[trigger]
            under(domain, "."@ + domain, label + ("."@ + domain)),
        under(domain, "."@ + domain, name) && name != domain ==> name.len() > domain.len()
            && name[name.len() - domain.len() - 1] == '.',
{
    reveal_strlit(".");
    let suffix = "."@ + domain;
    assert forall|label: Seq<char>| #[trigger] under(domain, suffix, label + suffix) by {
        let n = label + suffix;
        assert(n.subrange(n.len() - suffix.len(), n.len() as int) =~= suffix);
    }
    if under(domain, suffix, name) && name != domain {
        let tail = name.subrange(name.len() - suffix.len(), name.len() as int);
        assert(tail == suffix);
        assert(tail[0] == '.');
    }
}

/// A name is served if and only if it is the domain or ends in a dot and the
/// domain.
pub proof fn served_names_end_in_the_domain(domain: Seq<char>, name: Seq<char>)
    ensures
        under(domain, "."@ + domain, name) <==> name == domain || (name.len() > domain.len()
            && name[name.len() - domain.len() - 1] == '.' && name.skip(name.len() - domain.len())
            == domain),
{
    reveal_strlit(".");
    let suffix = "."@ + domain;
    if suffix.is_suffix_of(name) {
        let at = name.len() - suffix.len();
        assert(name.subrange(at as int, name.len() as int)[0] == suffix[0]);
        assert(name.skip(name.len() - domain.len()) =~= domain) by {
            assert forall|i: int| 0 <= i < domain.len() implies name[name.len() - domain.len() + i]
                == domain[i] by {
                assert(name.subrange(at as int, name.len() as int)[i + 1] == suffix[i + 1]);
            }
        }
    }
    if name.len() > domain.len() && name[name.len() - domain.len() - 1] == '.' && name.skip(
        name.len() - domain.len(),
    ) == domain {
        let at = name.len() - suffix.len();
        assert(name.subrange(at as int, name.len() as int) =~= suffix) by {
            assert forall|i: int| 0 <= i < suffix.len() implies name[at + i] == suffix[i] by {
                if i > 0 {
                    assert(name.skip(name.len() - domain.len())[i - 1] == domain[i - 1]);
                }
            }
        }
    }
}

/// A certificate is for the domain and everything right below it.
pub proof fn certificate_covers_the_domain(domain: Seq<char>)
    ensures
        wildcard_names(domain).len() == 2,
        wildcard_names(domain)[0] == domain,
        wildcard_names(domain)[1] == "*."@ + domain,
{
}

/// A chain is read before its key; an empty chain is refused.
pub proof fn unread_parts_are_refused(
    chain: Result<Seq<Seq<u8>>, Seq<char>>,
    key: Option<Seq<char>>,
    e: Seq<char>,
)
    ensures
        chain == Err::<Seq<Seq<u8>>, _>(e) ==> pem_fault(chain, key) == Some(
            "parsing certificate chain: "@ + e,
        ),
        chain is Ok && chain->Ok_0.len() == 0 ==> pem_fault(chain, key) == Some(
            "no certificates found in PEM chain"@,
        ),
        chain is Ok && chain->Ok_0.len() > 0 && key == Some(e) ==> pem_fault(chain, key) == Some(
            "parsing private key: "@ + e,
        ),
        chain is Ok && chain->Ok_0.len() > 0 && key is None ==> pem_fault(chain, key) is None,
{
}

/// A time of expiry is taken as it stands, unless it lies before 1970.
pub proof fn expiry_is_the_time_read(t: i64, e: Seq<char>)
    ensures
        t >= 0 ==> expiry(Ok(t)) is Ok && expiry(Ok(t))->Ok_0 == t,
        t < 0 ==> expiry(Ok(t)) == Err::<u64, _>("certificate notAfter is before the unix epoch"@),
        expiry(Err(e)) == Err::<u64, _>("parsing leaf certificate: "@ + e),
{
}

} // verus!
