//! String building and matching over the character view of Rust strings.
//!
//! Every contract in the crate speaks of a string as its `Seq<char>`. The
//! functions here are the executable counterparts of the few sequence
//! operations the protocol needs: comparison, ASCII case folding, decimal
//! rendering, prefix and suffix tests, and cutting at a separator.
use vstd::prelude::*;

verus! {

/// `String::push`: appends one character, changing nothing else.
pub assume_specification[ String::push ](s: &mut String, c: char)
    ensures
        final(s)@ == old(s)@.push(c),
;

/// The lowercase form of an ASCII letter; every other character unchanged.
pub open spec fn lower_char(c: char) -> char {
    if 'A' <= c && c <= 'Z' {
        (c as u32 + 32) as char
    } else {
        c
    }
}

/// ASCII case folding of a whole string.
pub open spec fn lower(s: Seq<char>) -> Seq<char> {
    s.map_values(|c: char| lower_char(c))
}

/// The character of one decimal digit.
pub open spec fn digit_char(d: nat) -> char {
    (48 + d) as char
}

/// Decimal digits of `n`, most significant first, with no leading zero.
pub open spec fn decimal(n: nat) -> Seq<char>
    decreases n,
{
    if n < 10 {
        seq![digit_char(n)]
    } else {
        decimal(n / 10).push(digit_char(n % 10))
    }
}

/// Decimal form of a signed integer.
pub open spec fn decimal_int(n: int) -> Seq<char> {
    if n < 0 {
        seq!['-'] + decimal((-n) as nat)
    } else {
        decimal(n as nat)
    }
}

/// Position of the first `c` in `s`, or `s.len()` when there is none.
pub open spec fn first_at(s: Seq<char>, c: char) -> int
    decreases s.len(),
{
    if s.len() == 0 || s[0] == c {
        0
    } else {
        1 + first_at(s.drop_first(), c)
    }
}

/// The part of `s` before the first `c`; all of `s` when there is none.
pub open spec fn before(s: Seq<char>, c: char) -> Seq<char> {
    s.take(first_at(s, c))
}

pub proof fn lemma_first_at(s: Seq<char>, c: char)
    ensures
        0 <= first_at(s, c) <= s.len(),
        forall|j: int| 0 <= j < first_at(s, c) ==> s[j] != c,
        first_at(s, c) < s.len() ==> s[first_at(s, c)] == c,
    decreases s.len(),
{
    if s.len() == 0 || s[0] == c {
    } else {
        let t = s.drop_first();
        lemma_first_at(t, c);
        assert forall|j: int| 0 <= j < first_at(s, c) implies s[j] != c by {
            if j > 0 {
                assert(t[j - 1] != c);
            }
        }
    }
}

/// The position found by a scan is the first one.
pub proof fn lemma_first_at_unique(s: Seq<char>, c: char, i: int)
    requires
        0 <= i <= s.len(),
        forall|j: int| 0 <= j < i ==> s[j] != c,
        i < s.len() ==> s[i] == c,
    ensures
        first_at(s, c) == i,
{
    lemma_first_at(s, c);
    let k = first_at(s, c);
    if k < i {
        assert(s[k] == c);
    }
    if i < k {
        assert(s[i] == c);
    }
}

/// True iff the two strings hold the same characters.
pub fn same(a: &str, b: &str) -> (r: bool)
    ensures
        r == (a@ == b@),
{
    a.to_owned() == b.to_owned()
}

/// The characters of `s`, in order.
pub fn chars_of(s: &str) -> (r: Vec<char>)
    ensures
        r@ == s@,
{
    let mut v: Vec<char> = Vec::new();
    for c in it: s.chars()
        invariant
            v@ == it.seq().take(it.index()),
            it.seq() == s@,
    {
        v.push(c);
    }
    v
}

/// A string of `cs[from..to]`.
pub fn string_of(cs: &Vec<char>, from: usize, to: usize) -> (r: String)
    requires
        from <= to <= cs@.len(),
    ensures
        r@ == cs@.subrange(from as int, to as int),
{
    let mut s = String::new();
    let mut i: usize = from;
    while i < to
        invariant
            from <= i <= to <= cs@.len(),
            s@ == cs@.subrange(from as int, i as int),
        decreases to - i,
    {
        s.push(cs[i]);
        i += 1;
        assert(s@ =~= cs@.subrange(from as int, i as int));
    }
    s
}

/// ASCII case folding of one character.
pub fn lower_of(c: char) -> (r: char)
    ensures
        r == lower_char(c),
{
    if 'A' <= c && c <= 'Z' {
        let b: u8 = c as u8;
        (b + 32) as char
    } else {
        c
    }
}

/// ASCII case folding: `A`..`Z` become `a`..`z`, everything else is kept.
pub fn to_lower(s: &str) -> (r: String)
    ensures
        r@ == lower(s@),
{
    let cs = chars_of(s);
    let mut out = String::new();
    let mut i: usize = 0;
    while i < cs.len()
        invariant
            i <= cs@.len(),
            cs@ == s@,
            out@ == lower(s@).take(i as int),
        decreases cs@.len() - i,
    {
        out.push(lower_of(cs[i]));
        i += 1;
        assert(out@ =~= lower(s@).take(i as int));
    }
    assert(lower(s@).take(i as int) =~= lower(s@));
    out
}

/// Appends the decimal form of `n`.
pub fn push_decimal(s: &mut String, n: u64)
    ensures
        final(s)@ == old(s)@ + decimal(n as nat),
    decreases n,
{
    if n >= 10 {
        push_decimal(s, n / 10);
    }
    let d: u8 = (n % 10) as u8;
    s.push((48 + d) as char);
    assert(s@ =~= old(s)@ + decimal(n as nat));
}

/// Decimal form of an unsigned integer.
pub fn decimal_u64(n: u64) -> (r: String)
    ensures
        r@ == decimal(n as nat),
{
    let mut s = String::new();
    push_decimal(&mut s, n);
    assert(s@ =~= decimal(n as nat));
    s
}

/// Decimal form of a signed integer.
pub fn decimal_i64(n: i64) -> (r: String)
    ensures
        r@ == decimal_int(n as int),
{
    let mut s = String::new();
    if n < 0 {
        s.push('-');
        let m: u64 = (-(n as i128)) as u64;
        push_decimal(&mut s, m);
        assert(s@ =~= decimal_int(n as int));
    } else {
        push_decimal(&mut s, n as u64);
        assert(s@ =~= decimal_int(n as int));
    }
    s
}

/// Concatenation of two strings.
pub fn join2(a: &str, b: &str) -> (r: String)
    ensures
        r@ == a@ + b@,
{
    let mut s = a.to_owned();
    s.append(b);
    s
}

/// Concatenation of three strings.
pub fn join3(a: &str, b: &str, c: &str) -> (r: String)
    ensures
        r@ == a@ + b@ + c@,
{
    let mut s = a.to_owned();
    s.append(b);
    s.append(c);
    s
}

/// True iff `s` starts with `p`.
pub fn starts_with(s: &str, p: &str) -> (r: bool)
    ensures
        r == p@.is_prefix_of(s@),
{
    let n: usize = s.unicode_len();
    let m: usize = p.unicode_len();
    if m > n {
        return false;
    }
    let head = s.substring_char(0, m);
    let r = same(head, p);
    assert(s@.subrange(0, m as int) =~= s@.take(m as int));
    r
}

/// True iff `s` ends with `p`.
pub fn ends_with(s: &str, p: &str) -> (r: bool)
    ensures
        r == p@.is_suffix_of(s@),
{
    let n: usize = s.unicode_len();
    let m: usize = p.unicode_len();
    if m > n {
        return false;
    }
    let tail = s.substring_char(n - m, n);
    same(tail, p)
}

/// What is left of `s` when it ends with `p`.
pub fn strip_suffix(s: &str, p: &str) -> (r: Option<String>)
    ensures
        match r {
            Some(t) => p@.is_suffix_of(s@) && t@ == s@.take(s@.len() - p@.len()),
            None => !p@.is_suffix_of(s@),
        },
{
    let n: usize = s.unicode_len();
    let m: usize = p.unicode_len();
    if m > n {
        return None;
    }
    let tail = s.substring_char(n - m, n);
    if same(tail, p) {
        let head = s.substring_char(0, n - m);
        assert(s@.subrange(0, n - m) =~= s@.take(n - m));
        Some(head.to_owned())
    } else {
        None
    }
}

/// What is left of `s` when it starts with `p`.
pub fn strip_prefix(s: &str, p: &str) -> (r: Option<String>)
    ensures
        match r {
            Some(t) => p@.is_prefix_of(s@) && t@ == s@.skip(p@.len() as int),
            None => !p@.is_prefix_of(s@),
        },
{
    let n: usize = s.unicode_len();
    let m: usize = p.unicode_len();
    if m > n {
        return None;
    }
    let head = s.substring_char(0, m);
    assert(s@.subrange(0, m as int) =~= s@.take(m as int));
    if same(head, p) {
        let tail = s.substring_char(m, n);
        assert(s@.subrange(m as int, n as int) =~= s@.skip(m as int));
        Some(tail.to_owned())
    } else {
        None
    }
}

/// True iff `c` occurs in `s`.
pub fn has_char(s: &str, c: char) -> (r: bool)
    ensures
        r == s@.contains(c),
{
    let cs = chars_of(s);
    let mut i: usize = 0;
    while i < cs.len()
        invariant
            i <= cs@.len(),
            cs@ == s@,
            forall|j: int| 0 <= j < i ==> s@[j] != c,
        decreases cs@.len() - i,
    {
        if cs[i] == c {
            assert(s@[i as int] == c);
            return true;
        }
        i += 1;
    }
    false
}

/// The part of `s` before the first `c`, and all of it when there is none.
pub fn cut_before(s: &str, c: char) -> (r: String)
    ensures
        r@ == before(s@, c),
{
    let cs = chars_of(s);
    let mut i: usize = 0;
    while i < cs.len() && cs[i] != c
        invariant
            i <= cs@.len(),
            cs@ == s@,
            forall|j: int| 0 <= j < i ==> s@[j] != c,
        decreases cs@.len() - i,
    {
        i += 1;
    }
    proof {
        lemma_first_at_unique(s@, c, i as int);
    }
    string_of(&cs, 0, i)
}

/// True iff the string equals one of the list.
pub fn is_one_of(s: &str, list: &Vec<&str>) -> (r: bool)
    ensures
        r == exists|i: int| 0 <= i < list@.len() && (#[trigger] list@[i])@ == s@,
{
    let mut i: usize = 0;
    while i < list.len()
        invariant
            i <= list@.len(),
            forall|j: int| 0 <= j < i ==> (#[trigger] list@[j])@ != s@,
        decreases list@.len() - i,
    {
        if same(list[i], s) {
            return true;
        }
        i += 1;
    }
    false
}

/// `s` without the `c`s at its end.
pub open spec fn trimmed_end(s: Seq<char>, c: char) -> Seq<char>
    decreases s.len(),
{
    if s.len() > 0 && s.last() == c {
        trimmed_end(s.drop_last(), c)
    } else {
        s
    }
}

/// `s` without the `c`s at its end.
pub fn trim_end(s: &str, c: char) -> (r: String)
    ensures
        r@ == trimmed_end(s@, c),
{
    let cs = chars_of(s);
    let mut n: usize = cs.len();
    assert(s@.take(n as int) =~= s@);
    while n > 0 && cs[n - 1] == c
        invariant
            n <= cs@.len(),
            cs@ == s@,
            trimmed_end(s@, c) == trimmed_end(s@.take(n as int), c),
        decreases n,
    {
        assert(s@.take(n as int).drop_last() =~= s@.take(n - 1));
        n -= 1;
    }
    assert(s@.subrange(0, n as int) =~= s@.take(n as int));
    string_of(&cs, 0, n)
}

/// `p` occurs in `s` from position `i` on.
pub open spec fn occurs_at(s: Seq<char>, p: Seq<char>, i: int) -> bool {
    0 <= i && i + p.len() <= s.len() && s.subrange(i, i + p.len()) == p
}

/// `p` occurs in `s`.
pub open spec fn occurs(s: Seq<char>, p: Seq<char>) -> bool {
    exists|i: int| occurs_at(s, p, i)
}

/// True iff `p` occurs in `s`.
pub fn contains(s: &str, p: &str) -> (r: bool)
    ensures
        r == occurs(s@, p@),
{
    let cs = chars_of(s);
    let ps = chars_of(p);
    if ps.len() > cs.len() {
        return false;
    }
    let last: usize = cs.len() - ps.len();
    let mut i: usize = 0;
    while i <= last
        invariant
            i <= last,
            last + ps@.len() == cs@.len(),
            cs@ == s@,
            ps@ == p@,
            forall|j: int| 0 <= j < i ==> !occurs_at(s@, p@, j),
        decreases last - i,
    {
        let mut k: usize = 0;
        while k < ps.len() && cs[i + k] == ps[k]
            invariant
                k <= ps@.len(),
                i <= last,
                last + ps@.len() == cs@.len(),
                cs@ == s@,
                ps@ == p@,
                i + k <= cs@.len(),
                i + ps.len() <= cs.len(),
                forall|j: int| 0 <= j < k ==> s@[i + j] == p@[j],
            decreases ps@.len() - k,
        {
            k += 1;
        }
        if k == ps.len() {
            assert(s@.subrange(i as int, i + p@.len()) =~= p@);
            assert(occurs_at(s@, p@, i as int));
            return true;
        }
        assert(s@.subrange(i as int, i + p@.len())[k as int] != p@[k as int]);
        if i == last {
            return false;
        }
        i += 1;
    }
    false
}

/// A character with the Unicode property `White_Space`.
pub open spec fn blank(c: char) -> bool {
    let u = c as u32;
    ||| 9 <= u <= 13
    ||| u == 32
    ||| u == 0x85
    ||| u == 0xa0
    ||| u == 0x1680
    ||| 0x2000 <= u <= 0x200a
    ||| u == 0x2028
    ||| u == 0x2029
    ||| u == 0x202f
    ||| u == 0x205f
    ||| u == 0x3000
}

fn is_blank(c: char) -> (r: bool)
    ensures
        r == blank(c),
{
    let u: u32 = c as u32;
    (9 <= u && u <= 13) || u == 32 || u == 0x85 || u == 0xa0 || u == 0x1680 || (0x2000 <= u && u
        <= 0x200a) || u == 0x2028 || u == 0x2029 || u == 0x202f || u == 0x205f || u == 0x3000
}

/// `s` without the white space at its end.
pub open spec fn trimmed_right(s: Seq<char>) -> Seq<char>
    decreases s.len(),
{
    if s.len() > 0 && blank(s.last()) {
        trimmed_right(s.drop_last())
    } else {
        s
    }
}

/// `s` without the white space at its beginning.
pub open spec fn trimmed_left(s: Seq<char>) -> Seq<char>
    decreases s.len(),
{
    if s.len() > 0 && blank(s[0]) {
        trimmed_left(s.drop_first())
    } else {
        s
    }
}

/// `s` without the white space at its ends.
pub open spec fn trimmed(s: Seq<char>) -> Seq<char> {
    trimmed_left(trimmed_right(s))
}

/// `s` without the white space at its ends.
pub fn trim(s: &str) -> (r: String)
    ensures
        r@ == trimmed(s@),
{
    let cs = chars_of(s);
    let mut n: usize = cs.len();
    assert(s@.take(n as int) =~= s@);
    while n > 0 && is_blank(cs[n - 1])
        invariant
            n <= cs@.len(),
            cs@ == s@,
            trimmed_right(s@) == trimmed_right(s@.take(n as int)),
        decreases n,
    {
        assert(s@.take(n as int).drop_last() =~= s@.take(n - 1));
        n -= 1;
    }
    let ghost t = s@.take(n as int);
    let mut i: usize = 0;
    assert(t.skip(0) =~= t);
    while i < n && is_blank(cs[i])
        invariant
            i <= n <= cs@.len(),
            cs@ == s@,
            t == s@.take(n as int),
            trimmed_left(t) == trimmed_left(t.skip(i as int)),
        decreases n - i,
    {
        assert(t.skip(i as int).drop_first() =~= t.skip(i + 1));
        i += 1;
    }
    assert(s@.subrange(i as int, n as int) =~= t.skip(i as int));
    string_of(&cs, i, n)
}

/// The parts of `s` between the `c`s.
pub open spec fn parts(s: Seq<char>, c: char) -> Seq<Seq<char>>
    decreases s.len(),
{
    let i = first_at(s, c);
    if i >= s.len() || i < 0 {
        seq![s]
    } else {
        seq![s.take(i)] + parts(s.skip(i + 1), c)
    }
}

/// Views of a list of strings.
pub open spec fn all_of(v: Seq<String>) -> Seq<Seq<char>> {
    v.map_values(|s: String| s@)
}

/// The parts of `s` between the `c`s.
pub fn split(s: &str, c: char) -> (r: Vec<String>)
    ensures
        all_of(r@) == parts(s@, c),
{
    let cs = chars_of(s);
    let mut out: Vec<String> = Vec::new();
    let mut from: usize = 0;
    let mut i: usize = 0;
    assert(s@.skip(0) =~= s@);
    assert(all_of(out@) + parts(s@.skip(0), c) =~= parts(s@, c));
    while i < cs.len()
        invariant
            from <= i <= cs@.len(),
            cs@ == s@,
            forall|j: int| from <= j < i ==> s@[j] != c,
            all_of(out@) + parts(s@.skip(from as int), c) == parts(s@, c),
        decreases cs@.len() - i,
    {
        if cs[i] == c {
            let ghost rest = s@.skip(from as int);
            let ghost done = out@;
            let one = string_of(&cs, from, i);
            out.push(one);
            proof {
                lemma_first_at_unique(rest, c, i - from);
                assert(rest.take(i - from) =~= s@.subrange(from as int, i as int));
                assert(rest.skip(i - from + 1) =~= s@.skip(i + 1));
                assert(all_of(out@) =~= all_of(done).push(one@));
                assert(all_of(out@) + parts(s@.skip(i + 1), c) =~= all_of(done) + (seq![one@]
                    + parts(s@.skip(i + 1), c)));
            }
            from = i + 1;
        }
        i += 1;
    }
    let ghost rest = s@.skip(from as int);
    let ghost done = out@;
    let one = string_of(&cs, from, i);
    out.push(one);
    proof {
        lemma_first_at_unique(rest, c, rest.len() as int);
        assert(s@.subrange(from as int, i as int) =~= rest);
        assert(all_of(out@) =~= all_of(done) + seq![one@]);
    }
    out
}

/// A decimal digit.
pub open spec fn digit(c: char) -> bool {
    '0' <= c && c <= '9'
}

/// The number that a run of decimal digits denotes.
pub open spec fn value(s: Seq<char>) -> nat
    decreases s.len(),
{
    if s.len() == 0 {
        0
    } else {
        10 * value(s.drop_last()) + (s.last() as u32 - 48) as nat
    }
}

/// The digits of a number that may begin with a plus sign.
pub open spec fn unsigned_digits(s: Seq<char>) -> Seq<char> {
    if s.len() > 0 && s[0] == '+' {
        s.skip(1)
    } else {
        s
    }
}

/// The 64-bit unsigned number a text denotes: decimal digits, at least one,
/// with an optional plus sign in front.
pub open spec fn parsed_u64(s: Seq<char>) -> Option<u64> {
    let d = unsigned_digits(s);
    if d.len() > 0 && (forall|i: int| 0 <= i < d.len() ==> digit(#[trigger] d[i])) && value(d)
        <= u64::MAX {
        Some(value(d) as u64)
    } else {
        None
    }
}

proof fn lemma_value_grows(s: Seq<char>, i: int)
    requires
        0 <= i <= s.len(),
        forall|j: int| 0 <= j < s.len() ==> digit(#[trigger] s[j]),
    ensures
        value(s.take(i)) <= value(s),
    decreases s.len() - i,
{
    if i < s.len() {
        lemma_value_grows(s, i + 1);
        assert(s.take(i + 1).drop_last() =~= s.take(i));
    } else {
        assert(s.take(i) =~= s);
    }
}

/// The 64-bit unsigned number a text denotes.
pub fn parse_u64(s: &str) -> (r: Option<u64>)
    ensures
        r == parsed_u64(s@),
{
    let cs = chars_of(s);
    let from: usize = if cs.len() > 0 && cs[0] == '+' {
        1
    } else {
        0
    };
    let ghost d = unsigned_digits(s@);
    assert(d =~= s@.skip(from as int));
    if from == cs.len() {
        return None;
    }
    let mut acc: u64 = 0;
    let mut fits: bool = true;
    let mut i: usize = from;
    assert(d.take(0) =~= Seq::<char>::empty());
    while i < cs.len()
        invariant
            from <= i <= cs@.len(),
            cs@ == s@,
            d == s@.skip(from as int),
            d == unsigned_digits(s@),
            d.len() > 0,
            forall|j: int| 0 <= j < i - from ==> digit(#[trigger] d[j]),
            fits ==> acc == value(d.take(i - from)),
            !fits ==> value(d.take(i - from)) > u64::MAX,
        decreases cs@.len() - i,
    {
        let c = cs[i];
        assert(d[i - from] == c);
        if !('0' <= c && c <= '9') {
            assert(!digit(d[i - from]));
            return None;
        }
        let n: u64 = (c as u32 - 48) as u64;
        assert(d.take(i + 1 - from).drop_last() =~= d.take(i - from));
        assert(d.take(i + 1 - from).last() == c);
        if fits {
            if acc > (u64::MAX - n) / 10 {
                fits = false;
            } else {
                acc = acc * 10 + n;
            }
        }
        i += 1;
    }
    assert(d.take(i - from) =~= d);
    if fits {
        Some(acc)
    } else {
        None
    }
}

/// The parts with a separator between them.
pub open spec fn joined(s: Seq<Seq<char>>, sep: Seq<char>) -> Seq<char>
    decreases s.len(),
{
    if s.len() == 0 {
        Seq::empty()
    } else if s.len() == 1 {
        s[0]
    } else {
        joined(s.drop_last(), sep) + sep + s.last()
    }
}

/// The parts with a separator between them.
pub fn join(v: &Vec<String>, sep: &str) -> (r: String)
    ensures
        r@ == joined(all_of(v@), sep@),
{
    let ghost s = all_of(v@);
    let mut out = String::new();
    let mut i: usize = 0;
    assert(s.take(0) =~= Seq::<Seq<char>>::empty());
    assert(out@ =~= joined(s.take(0), sep@));
    while i < v.len()
        invariant
            i <= v@.len(),
            s == all_of(v@),
            out@ == joined(s.take(i as int), sep@),
        decreases v@.len() - i,
    {
        if i > 0 {
            out.append(sep);
        }
        out.append(v[i].as_str());
        assert(s.take(i + 1).drop_last() =~= s.take(i as int));
        assert(s.take(i + 1).last() == v@[i as int]@);
        assert(i == 0 ==> out@ =~= v@[0]@);
        i += 1;
    }
    assert(s.take(i as int) =~= s);
    out
}

/// `s` filled up with spaces to a width.
pub open spec fn padded(s: Seq<char>, width: nat) -> Seq<char> {
    if s.len() < width {
        s + Seq::new((width - s.len()) as nat, |i: int| ' ')
    } else {
        s
    }
}

/// `s` filled up with spaces to a width.
pub fn pad(s: &str, width: usize) -> (r: String)
    ensures
        r@ == padded(s@, width as nat),
{
    let mut out = s.to_owned();
    let mut n: usize = s.unicode_len();
    assert(out@ =~= s@ + Seq::new((n - s@.len()) as nat, |i: int| ' '));
    while n < width
        invariant
            s@.len() <= n,
            n <= width || n == s@.len(),
            out@ == s@ + Seq::new((n - s@.len()) as nat, |i: int| ' '),
        decreases width - n,
    {
        out.push(' ');
        n += 1;
        assert(out@ =~= s@ + Seq::new((n - s@.len()) as nat, |i: int| ' '));
    }
    assert(out@ =~= padded(s@, width as nat));
    out
}

/// Each text behind a prefix.
pub open spec fn prefixed(prefix: Seq<char>, s: Seq<Seq<char>>) -> Seq<Seq<char>> {
    s.map_values(|t: Seq<char>| prefix + t)
}

/// Decimal forms of ports behind a prefix.
pub open spec fn prefixed_ports(prefix: Seq<char>, s: Seq<u16>) -> Seq<Seq<char>> {
    s.map_values(|p: u16| prefix + decimal(p as nat))
}

/// Append each text behind a prefix.
pub fn push_prefixed(out: &mut Vec<String>, prefix: &str, v: &Vec<String>)
    ensures
        all_of(final(out)@) == all_of(old(out)@) + prefixed(prefix@, all_of(v@)),
{
    let ghost base = all_of(out@);
    let ghost target = prefixed(prefix@, all_of(v@));
    let mut i: usize = 0;
    assert(all_of(out@) =~= base + target.take(0));
    while i < v.len()
        invariant
            i <= v@.len(),
            target == prefixed(prefix@, all_of(v@)),
            all_of(out@) == base + target.take(i as int),
        decreases v@.len() - i,
    {
        let ghost done = out@;
        let line = join2(prefix, v[i].as_str());
        out.push(line);
        i += 1;
        assert(all_of(out@) =~= all_of(done).push(line@));
        assert(all_of(out@) =~= base + target.take(i as int));
    }
    assert(target.take(i as int) =~= target);
}

/// Append the decimal form of each port behind a prefix.
pub fn push_ports(out: &mut Vec<String>, prefix: &str, v: &Vec<u16>)
    ensures
        all_of(final(out)@) == all_of(old(out)@) + prefixed_ports(prefix@, v@),
{
    let ghost base = all_of(out@);
    let ghost target = prefixed_ports(prefix@, v@);
    let mut i: usize = 0;
    assert(all_of(out@) =~= base + target.take(0));
    while i < v.len()
        invariant
            i <= v@.len(),
            target == prefixed_ports(prefix@, v@),
            all_of(out@) == base + target.take(i as int),
        decreases v@.len() - i,
    {
        let ghost done = out@;
        let line = join2(prefix, decimal_u64(v[i] as u64).as_str());
        out.push(line);
        i += 1;
        assert(all_of(out@) =~= all_of(done).push(line@));
        assert(all_of(out@) =~= base + target.take(i as int));
    }
    assert(target.take(i as int) =~= target);
}

/// Append one line.
pub fn push_line(out: &mut Vec<String>, line: String)
    ensures
        all_of(final(out)@) == all_of(old(out)@).push(line@),
{
    let ghost done = out@;
    out.push(line);
    assert(all_of(out@) =~= all_of(done).push(line@));
}

/// Lowering keeps the length, turns each of `A` to `Z` into its small letter
/// and leaves every other character alone; a second time changes nothing.
pub proof fn lowering_folds_ascii(s: Seq<char>, i: int)
    requires
        0 <= i < s.len(),
    ensures
        lower(s).len() == s.len(),
        'A' <= s[i] <= 'Z' ==> lower(s)[i] as int == s[i] as int + ('a' as int - 'A' as int),
        !('A' <= s[i] <= 'Z') ==> lower(s)[i] == s[i],
        lower(lower(s)) == lower(s),
{
    assert(lower(lower(s)) =~= lower(s));
}

/// A number is written in its decimal digits, the most significant first and
/// without a leading zero: reading it back gives the number.
pub proof fn decimal_reads_back(n: nat)
    ensures
        value(decimal(n)) == n,
        decimal(n).len() > 0,
        forall|i: int| 0 <= i < decimal(n).len() ==> digit(#[trigger] decimal(n)[i]),
        n > 0 ==> decimal(n)[0] != '0',
        n == 0 ==> decimal(n) == seq!['0'],
    decreases n,
{
    if n >= 10 {
        decimal_reads_back(n / 10);
        let d = decimal(n);
        assert(d.drop_last() =~= decimal(n / 10));
        assert(d[0] == decimal(n / 10)[0]);
        assert forall|i: int| 0 <= i < d.len() implies digit(#[trigger] d[i]) by {
            if i < d.len() - 1 {
                assert(d[i] == decimal(n / 10)[i]);
            }
        }
    } else {
        let d = decimal(n);
        assert(d.drop_last() =~= Seq::<char>::empty());
        assert(value(d.drop_last()) == 0);
    }
}

/// A signed number is its size, after a minus if it is below zero.
pub proof fn signed_decimal_reads_back(n: int)
    ensures
        n < 0 <==> decimal_int(n)[0] == '-',
        n >= 0 ==> value(decimal_int(n)) == n,
        n < 0 ==> value(decimal_int(n).skip(1)) == -n,
{
    if n < 0 {
        decimal_reads_back((-n) as nat);
        assert(decimal_int(n).skip(1) =~= decimal((-n) as nat));
    } else {
        decimal_reads_back(n as nat);
        assert(digit(decimal(n as nat)[0]));
    }
}

/// Each further digit is worth ten times less than the one before it.
pub proof fn digits_have_their_place(s: Seq<char>, c: char)
    requires
        digit(c),
    ensures
        value(s.push(c)) == 10 * value(s) + (c as int - '0' as int),
        value(Seq::empty()) == 0,
{
    assert(s.push(c).drop_last() =~= s);
}

/// A number is read from digits alone, with at most a plus before them, if it
/// fits; in particular every number is read back from what it is written as.
pub proof fn numbers_are_read_back(n: u64)
    ensures
        parsed_u64(decimal(n as nat)) == Some(n),
        parsed_u64(seq!['+'] + decimal(n as nat)) == Some(n),
        parsed_u64(Seq::empty()) is None,
{
    decimal_reads_back(n as nat);
    let d = decimal(n as nat);
    assert(digit(d[0]));
    assert(unsigned_digits(d) == d);
    assert((seq!['+'] + d).skip(1) =~= d);
}

/// What holds anything but digits, apart from a plus in front, is no number.
pub proof fn other_characters_make_no_number(s: Seq<char>, i: int)
    requires
        0 <= i < s.len(),
        !digit(s[i]),
        i > 0 || s[i] != '+',
    ensures
        parsed_u64(s) is None,
{
    let d = unsigned_digits(s);
    if s[0] == '+' {
        assert(d[i - 1] == s[i]);
    } else {
        assert(d[i] == s[i]);
    }
}

/// What is cut at a separator is put together again by it, and no part holds
/// it.
pub proof fn parts_make_up_the_whole(s: Seq<char>, c: char)
    ensures
        parts(s, c).len() > 0,
        forall|i: int| 0 <= i < parts(s, c).len() ==> !(#[trigger] parts(s, c)[i]).contains(c),
        joined(parts(s, c), seq![c]) == s,
    decreases s.len(),
{
    lemma_first_at(s, c);
    let i = first_at(s, c);
    if i < s.len() {
        let rest = s.skip(i + 1);
        let more = parts(rest, c);
        let all = parts(s, c);
        parts_make_up_the_whole(rest, c);
        assert forall|k: int| 0 <= k < all.len() implies !(#[trigger] all[k]).contains(c) by {
            if k > 0 {
                assert(all[k] == more[k - 1]);
            }
        }
        lemma_join_front(s.take(i), more, seq![c]);
        assert(s.take(i) + seq![c] + rest =~= s);
    } else {
        assert(joined(seq![s], seq![c]) == s);
    }
}

proof fn lemma_join_front(a: Seq<char>, more: Seq<Seq<char>>, sep: Seq<char>)
    requires
        more.len() > 0,
    ensures
        joined(seq![a] + more, sep) == a + sep + joined(more, sep),
    decreases more.len(),
{
    let all = seq![a] + more;
    if more.len() == 1 {
        assert(all.drop_last() =~= seq![a]);
        assert(joined(seq![a], sep) == a);
        assert(all.last() == more[0]);
    } else {
        lemma_join_front(a, more.drop_last(), sep);
        assert(all.drop_last() =~= seq![a] + more.drop_last());
        assert(all.last() == more.last());
        assert(joined(all, sep) =~= a + sep + joined(more, sep));
    }
}

proof fn lemma_trimmed_right(s: Seq<char>)
    ensures
        trimmed_right(s).len() <= s.len(),
        trimmed_right(s) == s.take(trimmed_right(s).len() as int),
        trimmed_right(s).len() > 0 ==> !blank(trimmed_right(s).last()),
        forall|i: int| trimmed_right(s).len() <= i < s.len() ==> blank(#[trigger] s[i]),
    decreases s.len(),
{
    if s.len() > 0 && blank(s.last()) {
        lemma_trimmed_right(s.drop_last());
        let t = trimmed_right(s);
        assert(t =~= s.take(t.len() as int));
        assert forall|i: int| t.len() <= i < s.len() implies blank(#[trigger] s[i]) by {
            if i < s.len() - 1 {
                assert(s.drop_last()[i] == s[i]);
            }
        }
    } else {
        assert(s =~= s.take(s.len() as int));
    }
}

proof fn lemma_trimmed_left(s: Seq<char>)
    ensures
        trimmed_left(s).len() <= s.len(),
        trimmed_left(s) == s.skip(s.len() - trimmed_left(s).len()),
        trimmed_left(s).len() > 0 ==> !blank(trimmed_left(s)[0]),
        forall|i: int| 0 <= i < s.len() - trimmed_left(s).len() ==> blank(#[trigger] s[i]),
    decreases s.len(),
{
    if s.len() > 0 && blank(s[0]) {
        let rest = s.drop_first();
        lemma_trimmed_left(rest);
        let t = trimmed_left(s);
        assert(t =~= s.skip(s.len() - t.len()));
        assert forall|i: int| 0 <= i < s.len() - t.len() implies blank(#[trigger] s[i]) by {
            if i > 0 {
                assert(rest[i - 1] == s[i]);
            }
        }
    } else {
        assert(s =~= s.skip(0));
    }
}

/// Trimming takes blanks off both ends and nothing else: what is left neither
/// begins nor ends with one, and what was taken off is blank.
pub proof fn trimming_takes_only_blanks(s: Seq<char>)
    ensures
        exists|a: int, b: int|
            0 <= a <= b <= s.len() && trimmed(s) == #[trigger] s.subrange(a, b) && (forall|i: int|
                0 <= i < a || b <= i < s.len() ==> blank(#[trigger] s[i])),
        trimmed(s).len() > 0 ==> !blank(trimmed(s)[0]) && !blank(trimmed(s).last()),
{
    lemma_trimmed_right(s);
    let r = trimmed_right(s);
    lemma_trimmed_left(r);
    let t = trimmed(s);
    let a = r.len() - t.len();
    let b = r.len() as int;
    assert(t =~= s.subrange(a, b));
    assert forall|i: int| 0 <= i < a || b <= i < s.len() implies blank(#[trigger] s[i]) by {
        if i < a {
            assert(r[i] == s[i]);
        }
    }
    if t.len() > 0 {
        assert(t.last() == r.last());
    }
}

/// Blanks and line ends are blank; what can be seen in ASCII is not.
pub proof fn visible_ascii_is_not_blank(c: char)
    requires
        c as u32 <= 126,
    ensures
        blank(c) <==> c == ' ' || 9 <= c as u32 <= 13,
        c as u32 > 32 ==> !blank(c),
{
}

/// Trimming a character off the end takes all of it there and nothing else.
pub proof fn end_is_trimmed(s: Seq<char>, c: char)
    ensures
        trimmed_end(s, c).len() <= s.len(),
        trimmed_end(s, c) == s.take(trimmed_end(s, c).len() as int),
        trimmed_end(s, c).len() > 0 ==> trimmed_end(s, c).last() != c,
        forall|i: int| trimmed_end(s, c).len() <= i < s.len() ==> #[trigger] s[i] == c,
    decreases s.len(),
{
    if s.len() > 0 && s.last() == c {
        end_is_trimmed(s.drop_last(), c);
        let t = trimmed_end(s, c);
        assert(t =~= s.take(t.len() as int));
        assert forall|i: int| t.len() <= i < s.len() implies #[trigger] s[i] == c by {
            if i < s.len() - 1 {
                assert(s.drop_last()[i] == s[i]);
            }
        }
    } else {
        assert(s =~= s.take(s.len() as int));
    }
}

/// A text is found wherever it stands, whatever is around it, and what is found
/// is no longer than what was searched.
pub proof fn occurrences_are_found(a: Seq<char>, p: Seq<char>, b: Seq<char>)
    ensures
        occurs(a + p + b, p),
        occurs(b, p) ==> p.len() <= b.len(),
{
    let s = a + p + b;
    assert(s.subrange(a.len() as int, (a.len() + p.len()) as int) =~= p);
    assert(occurs_at(s, p, a.len() as int));
}

/// What comes before the first of a character, which is all of it where there
/// is none.
pub proof fn cut_is_at_the_first(a: Seq<char>, c: char, b: Seq<char>)
    requires
        !a.contains(c),
    ensures
        before(a + seq![c] + b, c) == a,
        before(a, c) == a,
{
    let s = a + seq![c] + b;
    assert forall|j: int| 0 <= j < a.len() implies s[j] != c by {
        assert(a.contains(a[j]));
    }
    lemma_first_at_unique(s, c, a.len() as int);
    assert(s.take(a.len() as int) =~= a);
    assert forall|j: int| 0 <= j < a.len() implies a[j] != c by {
        assert(a.contains(a[j]));
    }
    lemma_first_at_unique(a, c, a.len() as int);
    assert(a.take(a.len() as int) =~= a);
}

/// A padded text begins with the text, is at least as wide as asked, and holds
/// only spaces behind it; one that is wide enough stays as it is.
pub proof fn padding_fills_with_spaces(s: Seq<char>, width: nat)
    ensures
        s.is_prefix_of(padded(s, width)),
        padded(s, width).len() == (if s.len() < width {
            width
        } else {
            s.len()
        }),
        forall|i: int| s.len() <= i < padded(s, width).len() ==> #[trigger] padded(s, width)[i] == ' ',
{
}

/// One line per item, each its prefix and the item.
pub proof fn items_get_their_prefix(prefix: Seq<char>, names: Seq<Seq<char>>, ports: Seq<u16>, i: int)
    ensures
        prefixed(prefix, names).len() == names.len(),
        0 <= i < names.len() ==> prefixed(prefix, names)[i] == prefix + names[i],
        prefixed_ports(prefix, ports).len() == ports.len(),
        0 <= i < ports.len() ==> prefixed_ports(prefix, ports)[i] == prefix + decimal(
            ports[i] as nat,
        ),
{
}

} // verus!
