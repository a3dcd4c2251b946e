//! The DNS provider of the certificate challenge.
//!
//! Just enough of the provider's API to create and delete the TXT records that
//! a challenge needs, and a lookup over HTTPS so that the authority is never
//! asked to validate a record that is not visible yet. Requests are sent by the
//! program around this module.
use vstd::prelude::*;

use crate::relay::crypto;
use crate::relay::json;
use crate::text;

verus! {

/// Seconds between two looks for a record.
pub const POLL_SECS: u64 = 3;

/// The API of one zone.
#[derive(Clone)]
pub struct Cloudflare {
    pub zone_id: String,
    pub token: String,
}

/// A TXT record that was created, kept so that it can be deleted.
#[derive(Clone, Debug)]
pub struct TxtRecord {
    pub id: String,
    pub name: String,
}

/// Where the records of a zone are.
pub open spec fn zone_url(zone: Seq<char>) -> Seq<char> {
    "https://api.cloudflare.com/client/v4/zones/"@ + zone + "/dns_records"@
}

/// The body that creates a TXT record.
pub open spec fn txt_body(name: Seq<char>, content: Seq<char>) -> Seq<char> {
    "{\"content\":"@ + crypto::json_quote(content) + ",\"name\":"@ + crypto::json_quote(name)
        + ",\"ttl\":60,\"type\":\"TXT\"}"@
}

/// What an API call gave: the body on success.
pub open spec fn api_fault(
    code: u16,
    status: Seq<char>,
    success: Option<bool>,
    errors: Seq<char>,
) -> Option<Seq<char>> {
    if 200 <= code < 300 && success != Some(false) {
        None
    } else {
        Some("cloudflare API "@ + status + ": "@ + errors)
    }
}

/// Whether an API call failed, given what its reply says; `status` is the
/// status line's text.
pub fn judge_api(code: u16, status: &str, success: Option<bool>, errors: &str) -> (r: Result<
    (),
    String,
>)
    ensures
        match r {
            Ok(_) => api_fault(code, status@, success, errors@) is None,
            Err(e) => api_fault(code, status@, success, errors@) == Some(e@),
        },
{
    let refused = match success {
        Some(b) => !b,
        None => false,
    };
    if 200 <= code && code < 300 && !refused {
        Ok(())
    } else {
        let mut s = text::join3("cloudflare API ", status, ": ");
        s.append(errors);
        Err(s)
    }
}

/// The errors a body reports, as text; `null` when it reports none.
pub open spec fn errors_in(body: Seq<u8>) -> Seq<char> {
    match json::json_text(body, "/errors"@) {
        Some(t) => t,
        None => "null"@,
    }
}

/// Whether an API call failed, by its status and body.
pub fn check_api(code: u16, status: &str, body: &[u8]) -> (r: Result<(), String>)
    ensures
        match r {
            Ok(_) => api_fault(
                code,
                status@,
                json::json_bool(body@, "/success"@),
                errors_in(body@),
            ) is None,
            Err(e) => api_fault(
                code,
                status@,
                json::json_bool(body@, "/success"@),
                errors_in(body@),
            ) == Some(e@),
        },
{
    let success = json::bool_at(body, "/success");
    let errors = match json::text_at(body, "/errors") {
        Some(t) => t,
        None => "null".to_owned(),
    };
    judge_api(code, status, success, errors.as_str())
}

impl Cloudflare {
    pub fn new(zone_id: String, token: String) -> (r: Self)
        ensures
            r.zone_id == zone_id,
            r.token == token,
    {
        Cloudflare { zone_id, token }
    }

    /// The value of the `Authorization` header.
    pub fn authorization(&self) -> (r: String)
        ensures
            r@ == "Bearer "@ + self.token@,
    {
        text::join2("Bearer ", self.token.as_str())
    }

    /// Where records are created.
    pub fn create_url(&self) -> (r: String)
        ensures
            r@ == zone_url(self.zone_id@),
    {
        text::join3(
            "https://api.cloudflare.com/client/v4/zones/",
            self.zone_id.as_str(),
            "/dns_records",
        )
    }

    /// The body that creates a TXT record.
    pub fn create_body(&self, name: &str, content: &str) -> (r: String)
        ensures
            r@ == txt_body(name@, content@),
    {
        let mut s = text::join3(
            "{\"content\":",
            crypto::quote_json(content).as_str(),
            ",\"name\":",
        );
        s.append(crypto::quote_json(name).as_str());
        s.append(",\"ttl\":60,\"type\":\"TXT\"}");
        s
    }

    /// The record that was created, by the body of a successful reply.
    pub fn created_txt(&self, name: &str, body: &[u8]) -> (r: Result<TxtRecord, String>)
        ensures
            match r {
                Ok(t) => json::json_str(body@, "/result/id"@) == Some(t.id@) && t.name@ == name@,
                Err(e) => json::json_str(body@, "/result/id"@) is None && e@
                    == "cloudflare response missing record id"@,
            },
    {
        match json::str_at(body, "/result/id") {
            Some(id) => Ok(TxtRecord { id, name: name.to_owned() }),
            None => Err("cloudflare response missing record id".to_owned()),
        }
    }

    /// Where a record is deleted.
    pub fn delete_url(&self, id: &str) -> (r: String)
        ensures
            r@ == zone_url(self.zone_id@) + "/"@ + id@,
    {
        text::join3(self.create_url().as_str(), "/", id)
    }
}

/// Where the TXT records of a name are looked up.
pub fn lookup_url(name: &str) -> (r: String)
    ensures
        r@ == "https://cloudflare-dns.com/dns-query?name="@ + name@ + "&type=TXT"@,
{
    text::join3("https://cloudflare-dns.com/dns-query?name=", name, "&type=TXT")
}

/// `s` without the `c`s at its beginning.
pub open spec fn trimmed_start(s: Seq<char>, c: char) -> Seq<char>
    decreases s.len(),
{
    if s.len() > 0 && s[0] == c {
        trimmed_start(s.drop_first(), c)
    } else {
        s
    }
}

/// The text of an answer without the quotes around it.
pub open spec fn unquoted(s: Seq<char>) -> Seq<char> {
    trimmed_start(text::trimmed_end(s, '"'), '"')
}

fn unquote(s: &str) -> (r: String)
    ensures
        r@ == unquoted(s@),
{
    let t = text::trim_end(s, '"');
    let cs = text::chars_of(t.as_str());
    let mut i: usize = 0;
    assert(t@.skip(0) =~= t@);
    while i < cs.len() && cs[i] == '"'
        invariant
            i <= cs@.len(),
            cs@ == t@,
            trimmed_start(t@, '"') == trimmed_start(t@.skip(i as int), '"'),
        decreases cs@.len() - i,
    {
        assert(t@.skip(i as int).drop_first() =~= t@.skip(i + 1));
        i += 1;
    }
    assert(t@.subrange(i as int, t@.len() as int) =~= t@.skip(i as int));
    text::string_of(&cs, i, cs.len())
}

/// Some answer is exactly the expected text.
pub open spec fn answered(answers: Option<Seq<Option<Seq<char>>>>, expected: Seq<char>) -> bool {
    match answers {
        Some(a) => exists|i: int|
            0 <= i < a.len() && (#[trigger] a[i]) is Some && unquoted(a[i]->0) == expected,
        None => false,
    }
}

/// Whether some answer is exactly the expected text.
pub fn any_answer(v: &Vec<Option<String>>, expected: &str) -> (r: bool)
    ensures
        r == answered(Some(json::maybes(v@)), expected@),
{
    let ghost a = json::maybes(v@);
    let mut i: usize = 0;
    while i < v.len()
        invariant
            i <= v@.len(),
            a == json::maybes(v@),
            forall|j: int|
                0 <= j < i ==> !((#[trigger] a[j]) is Some && unquoted(a[j]->0) == expected@),
        decreases v@.len() - i,
    {
        assert(a[i as int] == json::maybe(v@[i as int]));
        match &v[i] {
            Some(s) => {
                if text::same(unquote(s.as_str()).as_str(), expected) {
                    assert(a[i as int] is Some && unquoted(a[i as int]->0) == expected@);
                    return true;
                }
            },
            None => {},
        }
        i += 1;
    }
    false
}

/// Whether a lookup's reply holds the expected text.
pub fn txt_visible(body: &[u8], expected: &str) -> (r: bool)
    ensures
        r == answered(json::json_column(body@, "/Answer"@, "data"@), expected@),
{
    match json::column_at(body, "/Answer", "data") {
        Some(v) => any_answer(&v, expected),
        None => false,
    }
}

/// What waiting for a record does after a look.
#[derive(Clone, Copy, Debug, PartialEq, Eq, Structural)]
pub enum Propagation {
    /// The record is visible.
    Done,
    /// It is not, and the time is over.
    TimedOut,
    /// It is not: look again after a pause.
    Wait,
}

/// What follows a look at `now`.
pub fn after_look(visible: bool, now: u64, deadline: u64) -> (r: Propagation)
    ensures
        r == (if visible {
            Propagation::Done
        } else if now >= deadline {
            Propagation::TimedOut
        } else {
            Propagation::Wait
        }),
{
    if visible {
        Propagation::Done
    } else if now >= deadline {
        Propagation::TimedOut
    } else {
        Propagation::Wait
    }
}

/// The name of the throwaway record that proves the token can edit the zone.
pub fn probe_name(apex: &str) -> (r: String)
    ensures
        r@ == "_etun-probe."@ + apex@,
{
    text::join2("_etun-probe.", apex)
}

/// A reply counts if its status is a success and its body does not deny it.
pub proof fn only_success_is_no_fault(
    code: u16,
    status: Seq<char>,
    success: Option<bool>,
    errors: Seq<char>,
)
    ensures
        code < 200 || code >= 300 ==> api_fault(code, status, success, errors) is Some,
        success == Some(false) ==> api_fault(code, status, success, errors) is Some,
        200 <= code <= 299 ==> api_fault(code, status, Some(true), errors) is None && api_fault(
            code,
            status,
            None,
            errors,
        ) is None,
        api_fault(code, status, success, errors) matches Some(e) ==> e == "cloudflare API "@ + status
            + ": "@ + errors,
{
}

/// A record is created in its zone, for a minute, with its name and content.
pub proof fn record_carries_name_and_content(name: Seq<char>, content: Seq<char>, zone: Seq<char>)
    ensures
        text::occurs(txt_body(name, content), ",\"name\":"@ + crypto::json_quote(name)),
        text::occurs(txt_body(name, content), "{\"content\":"@ + crypto::json_quote(content)),
        text::occurs(txt_body(name, content), ",\"ttl\":60,\"type\":\"TXT\"}"@),
        text::occurs(zone_url(zone), "/zones/"@ + zone + "/dns_records"@),
        POLL_SECS == 3,
{
    let a = "{\"content\":"@ + crypto::json_quote(content);
    let n = ",\"name\":"@ + crypto::json_quote(name);
    let z = ",\"ttl\":60,\"type\":\"TXT\"}"@;
    let body = txt_body(name, content);
    assert(body =~= a + n + z);
    text::occurrences_are_found(a, n, z);
    assert(body =~= Seq::<char>::empty() + a + (n + z));
    text::occurrences_are_found(Seq::empty(), a, n + z);
    assert(body =~= (a + n) + z + Seq::<char>::empty());
    text::occurrences_are_found(a + n, z, Seq::empty());
    reveal_strlit("https://api.cloudflare.com/client/v4/zones/");
    reveal_strlit("https://api.cloudflare.com/client/v4");
    reveal_strlit("/zones/");
    let head = "https://api.cloudflare.com/client/v4"@;
    let tail = "/zones/"@ + zone + "/dns_records"@;
    assert("https://api.cloudflare.com/client/v4/zones/"@ =~= head + "/zones/"@);
    assert(zone_url(zone) =~= head + tail + Seq::<char>::empty());
    text::occurrences_are_found(head, tail, Seq::empty());
}

/// Whether text is nothing but quotation marks.
pub open spec fn quotes(s: Seq<char>) -> bool {
    forall|i: int| 0 <= i < s.len() ==> #[trigger] s[i] == '"'
}

proof fn lemma_trimmed_start(s: Seq<char>, c: char) -> (n: int)
    ensures
        0 <= n <= s.len(),
        trimmed_start(s, c) == s.skip(n),
        forall|i: int| 0 <= i < n ==> #[trigger] s[i] == c,
        n < s.len() ==> s[n] != c,
    decreases s.len(),
{
    if s.len() > 0 && s[0] == c {
        let m = lemma_trimmed_start(s.drop_first(), c);
        assert(s.drop_first().skip(m) =~= s.skip(m + 1));
        assert forall|i: int| 0 <= i < m + 1 implies #[trigger] s[i] == c by {
            if i > 0 {
                assert(s.drop_first()[i - 1] == c);
            }
        }
        if m + 1 < s.len() {
            assert(s.drop_first()[m] == s[m + 1]);
        }
        m + 1
    } else {
        assert(s.skip(0) =~= s);
        0
    }
}

/// Quotation marks around an answer do not count, and nothing else is dropped.
pub proof fn quotes_around_do_not_count(s: Seq<char>) -> (parts: (Seq<char>, Seq<char>))
    ensures
        s == parts.0 + unquoted(s) + parts.1,
        quotes(parts.0),
        quotes(parts.1),
        unquoted(s).len() > 0 ==> unquoted(s)[0] != '"' && unquoted(s).last() != '"',
{
    let t = text::trimmed_end(s, '"');
    text::end_is_trimmed(s, '"');
    let n = lemma_trimmed_start(t, '"');
    let back = s.skip(t.len() as int);
    assert(s =~= t.take(n) + unquoted(s) + back);
    (t.take(n), back)
}

/// A record is visible if and only if an answer holds what was expected.
pub proof fn visible_record_is_answered(a: Seq<Option<Seq<char>>>, i: int, expected: Seq<char>)
    ensures
        !answered(None, expected),
        0 <= i < a.len() && a[i] is Some && unquoted(a[i]->0) == expected ==> answered(
            Some(a),
            expected,
        ),
        (forall|j: int| 0 <= j < a.len() && (#[trigger] a[j]) is Some ==> unquoted(a[j]->0) != expected)
            ==> !answered(Some(a), expected),
{
}

} // verus!
