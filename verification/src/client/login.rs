//! What `login` and `doctor` learn from the relay.
use vstd::prelude::*;

use crate::client::control;
use crate::client::control::Reply;
use crate::relay::tls;
use crate::text;

verus! {

/// What a successful login learned.
#[derive(Clone, Copy, Debug, PartialEq, Eq, Structural)]
pub struct VerifyOk {
    pub session_id: u64,
    pub proto: u16,
}

/// What the reply to a login's `Hello` means.
pub fn verify(reply: &Reply) -> (r: Result<VerifyOk, String>)
    ensures
        match control::welcome(
            reply@,
            "relay rejected the token (authentication failed)"@,
        ) {
            Ok((session_id, proto)) => r == Ok::<_, String>(VerifyOk { session_id, proto }),
            Err(e) => r is Err && r->Err_0@ == e,
        },
{
    match control::read_welcome(reply, "relay rejected the token (authentication failed)") {
        Ok((session_id, proto)) => Ok(VerifyOk { session_id, proto }),
        Err(e) => Err(e),
    }
}

/// What a handshake told of the relay's certificate.
#[derive(Clone, Copy, Debug, PartialEq, Eq, Structural)]
pub struct TlsInfo {
    pub days_remaining: i64,
    pub expired: bool,
}

/// Division that rounds towards zero.
pub open spec fn toward_zero(a: int, b: int) -> int {
    if a >= 0 {
        a / b
    } else {
        -((-a) / b)
    }
}

/// What an expiry means at `now`, both in seconds since the epoch: whole days,
/// rounded towards zero, and whether it is over.
pub fn tls_info(not_after: i64, now: i64) -> (r: TlsInfo)
    ensures
        r.days_remaining == toward_zero(not_after - now, 86400),
        r.expired == (not_after <= now),
{
    let d: i128 = not_after as i128 - now as i128;
    let days: i128 = if d >= 0 {
        d / 86400
    } else {
        -((-d) / 86400)
    };
    TlsInfo { days_remaining: days as i64, expired: not_after <= now }
}

/// What the certificate a relay presented means at `now`, given in DER.
pub fn tls_probe(leaf: Option<&[u8]>, now: i64) -> (r: Result<TlsInfo, String>)
    ensures
        match leaf {
            None => r is Err && r->Err_0@ == "relay presented no certificate"@,
            Some(der) => match tls::der_not_after(der@) {
                Err(e) => r is Err && r->Err_0@ == "parsing relay certificate: "@ + e,
                Ok(t) => r is Ok && r->Ok_0.days_remaining == toward_zero(t - now, 86400)
                    && r->Ok_0.expired == (t <= now),
            },
        },
{
    match leaf {
        None => Err("relay presented no certificate".to_owned()),
        Some(der) => match tls::read_not_after(der) {
            Err(e) => Err(text::join2("parsing relay certificate: ", e.as_str())),
            Ok(t) => Ok(tls_info(t, now)),
        },
    }
}

/// Where a login takes its token from.
pub enum TokenSource {
    /// All of standard input.
    Stdin(String),
    /// The environment.
    Env(String),
    /// A prompt.
    Prompt(String),
    /// There is none.
    Missing,
}

/// The token a login uses: what was read or typed without the white space
/// around it, the environment's as it is.
pub open spec fn login_token(s: TokenSource) -> Result<Seq<char>, Seq<char>> {
    let t = match s {
        TokenSource::Stdin(t) => text::trimmed(t@),
        TokenSource::Env(t) => t@,
        TokenSource::Prompt(t) => text::trimmed(t@),
        TokenSource::Missing => Seq::empty(),
    };
    if s is Missing {
        Err("provide the token via --token-stdin or the ETUN_TOKEN env var"@)
    } else if t.len() == 0 {
        Err("empty token"@)
    } else {
        Ok(t)
    }
}

/// The token a login uses.
pub fn pick_token(source: TokenSource) -> (r: Result<String, String>)
    ensures
        match r {
            Ok(t) => login_token(source) == Ok::<_, Seq<char>>(t@),
            Err(e) => login_token(source) == Err::<Seq<char>, _>(e@),
        },
{
    let t = match source {
        TokenSource::Stdin(t) => text::trim(t.as_str()),
        TokenSource::Env(t) => t,
        TokenSource::Prompt(t) => text::trim(t.as_str()),
        TokenSource::Missing => {
            return Err(
                "provide the token via --token-stdin or the ETUN_TOKEN env var".to_owned(),
            );
        },
    };
    if t.as_str().is_empty() {
        Err("empty token".to_owned())
    } else {
        Ok(t)
    }
}

/// Days that remain are whole days, counted toward zero on either side of the
/// end.
pub proof fn days_count_toward_zero(left: int)
    ensures
        left >= 0 ==> toward_zero(left, 86400) * 86400 <= left < (toward_zero(left, 86400) + 1)
            * 86400,
        left <= 0 ==> (toward_zero(left, 86400) - 1) * 86400 < left <= toward_zero(left, 86400)
            * 86400,
        toward_zero(-left, 86400) == -toward_zero(left, 86400),
{
}

/// A token that was typed in or piped in is trimmed, one from the environment is
/// taken as it stands, and none may be empty.
pub proof fn login_needs_a_token(t: String)
    ensures
        text::trimmed(t@).len() > 0 ==> login_token(TokenSource::Stdin(t)) == Ok::<_, Seq<char>>(
            text::trimmed(t@),
        ) && login_token(TokenSource::Prompt(t)) == Ok::<_, Seq<char>>(text::trimmed(t@)),
        text::trimmed(t@).len() == 0 ==> login_token(TokenSource::Stdin(t)) == Err::<Seq<char>, _>(
            "empty token"@,
        ) && login_token(TokenSource::Prompt(t)) == Err::<Seq<char>, _>("empty token"@),
        t@.len() > 0 ==> login_token(TokenSource::Env(t)) == Ok::<_, Seq<char>>(t@),
        t@.len() == 0 ==> login_token(TokenSource::Env(t)) == Err::<Seq<char>, _>("empty token"@),
        login_token(TokenSource::Missing) is Err,
{
}

} // verus!
