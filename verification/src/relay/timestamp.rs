//! Strict `YYYY-MM-DDTHH:MM:SSZ` timestamps as unix seconds.
use vstd::prelude::*;

use crate::order;
use crate::text;

verus! {

/// A leap year of the Gregorian calendar.
pub open spec fn leap(y: int) -> bool {
    y % 4 == 0 && (y % 100 != 0 || y % 400 == 0)
}

/// Days of the years before `y`, counted from year 0.
pub open spec fn days_before_year(y: nat) -> nat
    decreases y,
{
    if y == 0 {
        0
    } else {
        days_before_year((y - 1) as nat) + (if leap(y - 1) {
            366nat
        } else {
            365nat
        })
    }
}

/// Days of month `m` of year `y`.
pub open spec fn days_in_month(y: int, m: int) -> nat {
    if m == 2 {
        if leap(y) {
            29
        } else {
            28
        }
    } else if m == 4 || m == 6 || m == 9 || m == 11 {
        30
    } else {
        31
    }
}

/// Days of the months before `m` in year `y`.
pub open spec fn days_before_month(y: int, m: int) -> nat
    decreases m,
{
    if m <= 1 {
        0
    } else {
        days_before_month(y, m - 1) + days_in_month(y, m - 1)
    }
}

/// Days from 1970-01-01 to a date, the day counted from the month's first.
pub open spec fn days_since_epoch(y: nat, m: int, d: int) -> int {
    days_before_year(y) + days_before_month(y as int, m) + d - 1 - days_before_year(1970)
}

/// A decimal digit.
pub open spec fn is_digit(c: char) -> bool {
    '0' <= c && c <= '9'
}

/// The value of a decimal digit.
pub open spec fn digit(c: char) -> int {
    c as int - 48
}

/// The two-digit number at `i`.
pub open spec fn two(s: Seq<char>, i: int) -> int {
    10 * digit(s[i]) + digit(s[i + 1])
}

/// The shape `dddd-dd-ddTdd:dd:ddZ`.
pub open spec fn shaped(s: Seq<char>) -> bool {
    &&& s.len() == 20
    &&& s[4] == '-' && s[7] == '-' && s[10] == 'T' && s[13] == ':' && s[16] == ':' && s[19] == 'Z'
    &&& is_digit(s[0]) && is_digit(s[1]) && is_digit(s[2]) && is_digit(s[3])
    &&& is_digit(s[5]) && is_digit(s[6])
    &&& is_digit(s[8]) && is_digit(s[9])
    &&& is_digit(s[11]) && is_digit(s[12])
    &&& is_digit(s[14]) && is_digit(s[15])
    &&& is_digit(s[17]) && is_digit(s[18])
}

/// Unix seconds of a timestamp; `None` for any deviation from the format, and
/// for a month, day, hour, minute or second out of range.
pub open spec fn unix_z(s: Seq<char>) -> Option<int> {
    if shaped(s) && 1 <= two(s, 5) <= 12 && 1 <= two(s, 8) <= 31 && two(s, 11) <= 23 && two(s, 14)
        <= 59 && two(s, 17) <= 60 {
        let year = 100 * two(s, 0) + two(s, 2);
        Some(
            days_since_epoch(year as nat, two(s, 5), two(s, 8)) * 86400 + two(s, 11) * 3600 + two(
                s,
                14,
            ) * 60 + two(s, 17),
        )
    } else {
        None
    }
}

/// The leap rule in closed form.
proof fn lemma_days_before_year(y: nat)
    ensures
        days_before_year(y) == 365 * y + (y + 3) / 4 - (y + 99) / 100 + (y + 399) / 400,
    decreases y,
{
    if y > 0 {
        lemma_days_before_year((y - 1) as nat);
        lemma_leap_step((y - 1) as nat);
    }
}

/// A division by `d` steps up exactly after a multiple of `d`.
proof fn lemma_div_step(y: int, d: int)
    requires
        0 <= y,
        1 < d,
    ensures
        (y + d) / d - (y + d - 1) / d == (if y % d == 0 {
            1int
        } else {
            0int
        }),
{
    let q = y / d;
    let r = y % d;
    vstd::arithmetic::div_mod::lemma_fundamental_div_mod(y, d);
    assert((q + 1) * d == q * d + d) by (nonlinear_arith);
    assert(q * d == d * q) by (nonlinear_arith);
    vstd::arithmetic::div_mod::lemma_fundamental_div_mod_converse(y + d, d, q + 1, r);
    if r == 0 {
        vstd::arithmetic::div_mod::lemma_fundamental_div_mod_converse(y + d - 1, d, q, d - 1);
    } else {
        vstd::arithmetic::div_mod::lemma_fundamental_div_mod_converse(
            y + d - 1,
            d,
            q + 1,
            r - 1,
        );
    }
}

/// One more year adds a leap day exactly in a leap year.
proof fn lemma_leap_step(y: nat)
    ensures
        (y + 4) / 4 - (y + 3) / 4 == (if y % 4 == 0 {
            1int
        } else {
            0int
        }),
        (y + 100) / 100 - (y + 99) / 100 == (if y % 100 == 0 {
            1int
        } else {
            0int
        }),
        (y + 400) / 400 - (y + 399) / 400 == (if y % 400 == 0 {
            1int
        } else {
            0int
        }),
        y % 100 == 0 ==> y % 4 == 0,
        y % 400 == 0 ==> y % 100 == 0,
{
    lemma_div_step(y as int, 4);
    lemma_div_step(y as int, 100);
    lemma_div_step(y as int, 400);
    assert(y % 100 == 0 ==> y % 4 == 0);
    assert(y % 400 == 0 ==> y % 100 == 0);
}

fn digit_of(c: char) -> (r: Option<u32>)
    ensures
        match r {
            Some(d) => is_digit(c) && d == digit(c) && d <= 9,
            None => !is_digit(c),
        },
{
    if '0' <= c && c <= '9' {
        Some(c as u32 - 48)
    } else {
        None
    }
}

fn two_of(cs: &Vec<char>, i: usize) -> (r: Option<u32>)
    requires
        i < 100,
        i + 1 < cs@.len(),
    ensures
        match r {
            Some(n) => is_digit(cs@[i as int]) && is_digit(cs@[i + 1]) && n == two(cs@, i as int)
                && n <= 99,
            None => !(is_digit(cs@[i as int]) && is_digit(cs@[i + 1])),
        },
{
    match (digit_of(cs[i]), digit_of(cs[i + 1])) {
        (Some(a), Some(b)) => Some(10 * a + b),
        _ => None,
    }
}

/// Days of the months before `m`.
fn before_month(year: u32, m: u32) -> (r: u32)
    requires
        1 <= m <= 12,
    ensures
        r == days_before_month(year as int, m as int),
        r <= 335,
{
    let feb: u32 = if year % 4 == 0 && (year % 100 != 0 || year % 400 == 0) {
        29
    } else {
        28
    };
    proof {
        reveal_with_fuel(days_before_month, 13);
    }
    match m {
        1 => 0,
        2 => 31,
        3 => 31 + feb,
        4 => 62 + feb,
        5 => 92 + feb,
        6 => 123 + feb,
        7 => 153 + feb,
        8 => 184 + feb,
        9 => 215 + feb,
        10 => 245 + feb,
        11 => 276 + feb,
        _ => 306 + feb,
    }
}

/// Parse a strict `YYYY-MM-DDTHH:MM:SSZ` timestamp to unix seconds (UTC).
/// `None` on any deviation.
pub fn parse_unix_z(s: &str) -> (r: Option<i64>)
    ensures
        match r {
            Some(t) => unix_z(s@) == Some(t as int),
            None => unix_z(s@) is None,
        },
{
    let cs = text::chars_of(s);
    if cs.len() != 20 || cs[4] != '-' || cs[7] != '-' || cs[10] != 'T' || cs[13] != ':' || cs[16]
        != ':' || cs[19] != 'Z' {
        return None;
    }
    match (
        two_of(&cs, 0),
        two_of(&cs, 2),
        two_of(&cs, 5),
        two_of(&cs, 8),
        two_of(&cs, 11),
        two_of(&cs, 14),
        two_of(&cs, 17),
    ) {
        (Some(y1), Some(y2), Some(mon), Some(day), Some(hh), Some(mm), Some(ss)) => {
            if mon < 1 || mon > 12 || day < 1 || day > 31 || hh > 23 || mm > 59 || ss > 60 {
                return None;
            }
            let year: u32 = 100 * y1 + y2;
            let before: i64 = (365 * year + (year + 3) / 4 - (year + 99) / 100 + (year + 399) / 400)
                as i64;
            proof {
                lemma_days_before_year(year as nat);
                lemma_days_before_year(1970);
            }
            let months: i64 = before_month(year, mon) as i64;
            let days: i64 = before + months + day as i64 - 1 - 719_528;
            Some(days * 86400 + hh as i64 * 3600 + mm as i64 * 60 + ss as i64)
        },
        _ => None,
    }
}

proof fn lemma_days_grow(a: nat, b: nat)
    requires
        a <= b,
    ensures
        days_before_year(b) >= days_before_year(a) + 365 * (b - a),
    decreases b - a,
{
    if a < b {
        lemma_days_grow(a, (b - 1) as nat);
    }
}

/// Later dates have later day numbers: a date in a later year comes after every
/// date of an earlier one.
pub proof fn later_year_is_later(y1: nat, m1: int, d1: int, y2: nat, m2: int, d2: int)
    requires
        y1 < y2,
        1 <= m1 <= 12,
        1 <= d1 <= days_in_month(y1 as int, m1),
        1 <= m2 <= 12,
        1 <= d2,
    ensures
        days_since_epoch(y1, m1, d1) < days_since_epoch(y2, m2, d2),
{
    reveal_with_fuel(days_before_month, 13);
    lemma_days_grow((y1 + 1) as nat, y2);
    assert(days_before_month(y1 as int, m1) + days_in_month(y1 as int, m1) <= (if leap(y1 as int) {
        366int
    } else {
        365int
    }));
}

/// A moment by its fields.
pub struct Civil {
    pub year: int,
    pub month: int,
    pub day: int,
    pub hour: int,
    pub minute: int,
    pub second: int,
}

impl Civil {
    /// A date of the calendar and a time of day.
    pub open spec fn on_calendar(self) -> bool {
        &&& 0 <= self.year
        &&& 1 <= self.month <= 12
        &&& 1 <= self.day <= days_in_month(self.year, self.month)
        &&& 0 <= self.hour <= 23
        &&& 0 <= self.minute <= 59
        &&& 0 <= self.second <= 59
    }

    /// The order of the fields, the year first.
    pub open spec fn before(self, o: Civil) -> bool {
        self.year < o.year || self.year == o.year && (self.month < o.month || self.month == o.month
            && (self.day < o.day || self.day == o.day && (self.hour < o.hour || self.hour == o.hour
            && (self.minute < o.minute || self.minute == o.minute && self.second < o.second))))
    }

    /// The second right after.
    pub open spec fn next(self) -> Civil {
        if self.second < 59 {
            Civil { second: self.second + 1, ..self }
        } else if self.minute < 59 {
            Civil { minute: self.minute + 1, second: 0, ..self }
        } else if self.hour < 23 {
            Civil { hour: self.hour + 1, minute: 0, second: 0, ..self }
        } else if self.day < days_in_month(self.year, self.month) {
            Civil { day: self.day + 1, hour: 0, minute: 0, second: 0, ..self }
        } else if self.month < 12 {
            Civil { month: self.month + 1, day: 1, hour: 0, minute: 0, second: 0, ..self }
        } else {
            Civil { year: self.year + 1, month: 1, day: 1, hour: 0, minute: 0, second: 0 }
        }
    }

    /// Seconds since the epoch.
    pub open spec fn unix(self) -> int {
        days_since_epoch(self.year as nat, self.month, self.day) * 86400 + self.hour * 3600
            + self.minute * 60 + self.second
    }
}

/// The fields of a timestamp.
pub open spec fn civil(s: Seq<char>) -> Civil {
    Civil {
        year: 100 * two(s, 0) + two(s, 2),
        month: two(s, 5),
        day: two(s, 8),
        hour: two(s, 11),
        minute: two(s, 14),
        second: two(s, 17),
    }
}

/// A timestamp that names a moment of the calendar.
pub open spec fn is_moment(s: Seq<char>) -> bool {
    shaped(s) && civil(s).on_calendar()
}

/// A later month of a year begins after every day of an earlier one.
proof fn lemma_months_grow(y: int, m: int, n: int)
    requires
        1 <= m < n,
    ensures
        days_before_month(y, m) + days_in_month(y, m) <= days_before_month(y, n),
    decreases n - m,
{
    if m + 1 < n {
        lemma_months_grow(y, m, n - 1);
    }
}

/// Moments are ordered as their fields are.
proof fn lemma_civil_order(a: Civil, b: Civil)
    requires
        a.on_calendar(),
        b.on_calendar(),
        a.before(b),
    ensures
        a.unix() < b.unix(),
{
    let da = days_since_epoch(a.year as nat, a.month, a.day);
    let db = days_since_epoch(b.year as nat, b.month, b.day);
    if a.year < b.year {
        later_year_is_later(a.year as nat, a.month, a.day, b.year as nat, b.month, b.day);
    } else if a.month < b.month {
        lemma_months_grow(a.year, a.month, b.month);
    }
    assert((a.year, a.month, a.day) != (b.year, b.month, b.day) ==> da < db);
    assert((a.year, a.month, a.day) == (b.year, b.month, b.day) ==> da == db);
}

/// Where two texts of one length first differ.
proof fn lemma_first_difference(a: Seq<char>, b: Seq<char>) -> (i: int)
    requires
        a.len() == b.len(),
        order::lex_le(a, b),
        a != b,
    ensures
        0 <= i < a.len(),
        a[i] < b[i],
        forall|j: int| 0 <= j < i ==> a[j] == b[j],
    decreases a.len(),
{
    if a.len() == 0 {
        assert(a =~= b);
        0
    } else if a[0] != b[0] {
        0
    } else {
        let (s, t) = (a.drop_first(), b.drop_first());
        if s == t {
            assert forall|j: int| 0 <= j < a.len() implies a[j] == b[j] by {
                if j > 0 {
                    assert(a[j] == s[j - 1] && b[j] == t[j - 1]);
                }
            }
            assert(a =~= b);
        }
        let i = lemma_first_difference(s, t);
        assert(a[i + 1] == s[i] && b[i + 1] == t[i]);
        assert forall|j: int| 0 <= j < i + 1 implies a[j] == b[j] by {
            if j > 0 {
                assert(a[j] == s[j - 1] && b[j] == t[j - 1]);
            }
        }
        i + 1
    }
}

/// Timestamps are ordered as their texts are, and as their fields are: of two
/// different ones, the lesser text names the earlier second.
pub proof fn text_order_is_time_order(a: Seq<char>, b: Seq<char>)
    requires
        is_moment(a),
        is_moment(b),
        order::lex_le(a, b),
        a != b,
    ensures
        unix_z(a) == Some(civil(a).unix()),
        unix_z(b) == Some(civil(b).unix()),
        civil(a).before(civil(b)),
        civil(a).unix() < civil(b).unix(),
{
    let i = lemma_first_difference(a, b);
    assert(i != 4 && i != 7 && i != 10 && i != 13 && i != 16 && i != 19);
    assert(civil(a).before(civil(b)));
    lemma_civil_order(civil(a), civil(b));
}

/// A timestamp of the second right after another, across the ends of minutes,
/// hours, days, months and years too, is one more.
pub proof fn next_second_is_one_more(a: Seq<char>, b: Seq<char>)
    requires
        is_moment(a),
        is_moment(b),
        civil(b) == civil(a).next(),
    ensures
        unix_z(a) == Some(civil(a).unix()),
        unix_z(b) == Some(civil(a).unix() + 1),
{
    let (c, n) = (civil(a), civil(a).next());
    reveal_with_fuel(days_before_month, 13);
    assert(n.year > c.year ==> days_before_year(n.year as nat) == days_before_year(c.year as nat)
        + days_before_month(c.year, 12) + 31);
}

/// Four centuries have 146097 days, wherever they begin.
pub proof fn four_centuries_repeat(y: nat)
    ensures
        days_before_year(y + 400) == days_before_year(y) + 146_097,
{
    lemma_days_before_year(y);
    lemma_days_before_year(y + 400);
}

/// A year has 366 days if four divides it, unless it ends a century that four
/// does not divide.
pub proof fn leap_years_are_gregorian(y: nat)
    ensures
        days_before_year(y + 1) - days_before_year(y) == (if y % 400 == 0 || (y % 4 == 0 && y % 100
            != 0) {
            366int
        } else {
            365int
        }),
        days_before_month(y as int, 13) == days_before_year(y + 1) - days_before_year(y),
        days_in_month(y as int, 2) == days_before_year(y + 1) - days_before_year(y) - 337,
{
    reveal_with_fuel(days_before_month, 13);
}

/// Months other than February have thirty or thirty-one days.
pub proof fn months_have_their_days(y: int, m: int)
    requires
        1 <= m <= 12,
        m != 2,
    ensures
        days_in_month(y, m) == 30 <==> m == 4 || m == 6 || m == 9 || m == 11,
        days_in_month(y, m) == 30 || days_in_month(y, m) == 31,
        days_before_month(y, 1) == 0,
        days_before_month(y, m + 1) == days_before_month(y, m) + days_in_month(y, m),
{
}

/// Times count from the first second of 1970.
pub proof fn times_count_from_the_epoch(s: Seq<char>)
    requires
        shaped(s),
        civil(s) == (Civil { year: 1970, month: 1, day: 1, hour: 0, minute: 0, second: 0 }),
    ensures
        unix_z(s) == Some(0int),
{
}

/// Two texts that read the same but for a later hour, minute or second are as
/// far apart as those are.
pub proof fn times_of_a_day_add_up(a: Seq<char>, b: Seq<char>)
    requires
        unix_z(a) is Some,
        unix_z(b) is Some,
        a.take(11) == b.take(11),
    ensures
        unix_z(b)->0 - unix_z(a)->0 == 3600 * (two(b, 11) - two(a, 11)) + 60 * (two(b, 14) - two(
            a,
            14,
        )) + two(b, 17) - two(a, 17),
{
    assert forall|i: int| 0 <= i < 11 implies a[i] == b[i] by {
        assert(a.take(11)[i] == a[i]);
        assert(b.take(11)[i] == b[i]);
    }
}

/// A time is read from twenty characters: digits and separators in their places,
/// with each field within its bounds.
pub proof fn times_have_one_shape(s: Seq<char>)
    ensures
        unix_z(s) is Some <==> {
            &&& s.len() == 20
            &&& s[4] == '-' && s[7] == '-' && s[10] == 'T' && s[13] == ':' && s[16] == ':' && s[19]
                == 'Z'
            &&& forall|i: int|
                0 <= i < 19 && i != 4 && i != 7 && i != 10 && i != 13 && i != 16 ==> '0'
                    <= #[trigger] s[i] <= '9'
            &&& 1 <= 10 * (s[5] as int - 48) + (s[6] as int - 48) <= 12
            &&& 1 <= 10 * (s[8] as int - 48) + (s[9] as int - 48) <= 31
            &&& 10 * (s[11] as int - 48) + (s[12] as int - 48) <= 23
            &&& 10 * (s[14] as int - 48) + (s[15] as int - 48) <= 59
            &&& 10 * (s[17] as int - 48) + (s[18] as int - 48) <= 60
        },
        civil(s).year == 1000 * (s[0] as int - 48) + 100 * (s[1] as int - 48) + 10 * (s[2] as int
            - 48) + (s[3] as int - 48),
{
}

} // verus!
