//! Hostname labels: which single DNS label may be claimed, and how a hostname
//! under the relay's apex maps to its label.
use vstd::prelude::*;
use vstd::string::*;

use crate::text;

verus! {

/// Reserved labels that may never be claimed as tunnel hostnames.
pub const RESERVED_LABELS: [&'static str; 7] = [
    "connect",
    "www",
    "admin",
    "api",
    "docs",
    "status",
    "mail",
];

/// A label may start and end with these.
pub open spec fn edge_char(c: char) -> bool {
    ('a' <= c && c <= 'z') || ('0' <= c && c <= '9')
}

/// A label may hold these.
pub open spec fn label_char(c: char) -> bool {
    edge_char(c) || c == '-'
}

/// One of the reserved labels.
pub open spec fn reserved(l: Seq<char>) -> bool {
    ||| l == "connect"@
    ||| l == "www"@
    ||| l == "admin"@
    ||| l == "api"@
    ||| l == "docs"@
    ||| l == "status"@
    ||| l == "mail"@
}

/// Why a label may not be claimed, if it may not.
pub open spec fn label_fault(l: Seq<char>) -> Option<Seq<char>> {
    if l.len() == 0 || vstd::utf8::encode_utf8(l).len() > 63 {
        Some("must be 1..=63 characters"@)
    } else if !edge_char(l.first()) || !edge_char(l.last()) {
        Some("must start and end with a-z0-9"@)
    } else if exists|i: int| 0 <= i < l.len() && !label_char(#[trigger] l[i]) {
        Some("only a-z, 0-9 and '-' are allowed"@)
    } else if reserved(l) {
        Some("this label is reserved"@)
    } else {
        None
    }
}

fn is_edge(c: char) -> (r: bool)
    ensures
        r == edge_char(c),
{
    ('a' <= c && c <= 'z') || ('0' <= c && c <= '9')
}

/// True iff the label is reserved.
pub fn is_reserved(l: &str) -> (r: bool)
    ensures
        r == reserved(l@),
{
    let mut i: usize = 0;
    while i < 7
        invariant
            i <= 7,
            forall|j: int| 0 <= j < i ==> (#[trigger] RESERVED_LABELS@[j])@ != l@,
        decreases 7 - i,
    {
        if text::same(RESERVED_LABELS[i], l) {
            return true;
        }
        i += 1;
    }
    false
}

/// Validate a hostname label: a single DNS label, lowercase, not reserved.
pub fn validate_label(label: &str) -> (r: Result<(), &'static str>)
    ensures
        match r {
            Ok(_) => label_fault(label@) is None,
            Err(why) => label_fault(label@) == Some(why@),
        },
{
    if label.is_empty() || label.as_bytes().len() > 63 {
        return Err("must be 1..=63 characters");
    }
    let cs = text::chars_of(label);
    if !is_edge(cs[0]) || !is_edge(cs[cs.len() - 1]) {
        return Err("must start and end with a-z0-9");
    }
    let mut i: usize = 0;
    while i < cs.len()
        invariant
            i <= cs@.len(),
            cs@ == label@,
            forall|j: int| 0 <= j < i ==> label_char(#[trigger] label@[j]),
            label@.len() > 0,
            vstd::utf8::encode_utf8(label@).len() <= 63,
            edge_char(label@.first()),
            edge_char(label@.last()),
        decreases cs@.len() - i,
    {
        let c = cs[i];
        if !is_edge(c) && c != '-' {
            assert(!label_char(label@[i as int]));
            return Err("only a-z, 0-9 and '-' are allowed");
        }
        i += 1;
    }
    if is_reserved(label) {
        return Err("this label is reserved");
    }
    Ok(())
}

/// A label can be had exactly if it has one to sixty-three characters, all of
/// them small letters, digits or hyphens, no hyphen at either end, and is none
/// of those the relay keeps for itself.
pub proof fn good_labels(l: Seq<char>)
    ensures
        label_fault(l) is None <==> 1 <= l.len() <= 63 && (forall|i: int|
            0 <= i < l.len() ==> 'a' <= (#[trigger] l[i]) <= 'z' || '0' <= l[i] <= '9' || l[i]
                == '-') && l[0] != '-' && l.last() != '-' && !seq![
            "connect"@,
            "www"@,
            "admin"@,
            "api"@,
            "docs"@,
            "status"@,
            "mail"@,
        ].contains(l),
{
    let kept = seq!["connect"@, "www"@, "admin"@, "api"@, "docs"@, "status"@, "mail"@];
    assert(kept[0] == "connect"@);
    assert(kept[1] == "www"@);
    assert(kept[2] == "admin"@);
    assert(kept[3] == "api"@);
    assert(kept[4] == "docs"@);
    assert(kept[5] == "status"@);
    assert(kept[6] == "mail"@);
    assert(kept.contains(l) == reserved(l));
    if forall|i: int| 0 <= i < l.len() ==> label_char(#[trigger] l[i]) {
        lemma_ascii_len(l);
        assert forall|i: int| 0 <= i < l.len() implies 'a' <= (#[trigger] l[i]) <= 'z' || '0'
            <= l[i] <= '9' || l[i] == '-' by {
            assert(label_char(l[i]));
        }
        if l.len() > 0 {
            assert(label_char(l[0]));
            assert(label_char(l[l.len() - 1]));
        }
    } else {
        let i = choose|i: int| 0 <= i < l.len() && !label_char(#[trigger] l[i]);
        assert(!label_char(l[i]));
    }
}

proof fn lemma_ascii_len(l: Seq<char>)
    requires
        forall|i: int| 0 <= i < l.len() ==> label_char(#[trigger] l[i]),
    ensures
        vstd::utf8::encode_utf8(l).len() == l.len(),
    decreases l.len(),
{
    if l.len() > 0 {
        let rest = l.drop_first();
        assert forall|i: int| 0 <= i < rest.len() implies label_char(#[trigger] rest[i]) by {
            assert(label_char(l[i + 1]));
        }
        lemma_ascii_len(rest);
        assert(label_char(l[0]));
    }
}

} // verus!
