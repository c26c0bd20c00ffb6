//! Civil (Gregorian) calendar arithmetic: dates as day counts since the
//! Unix epoch, clock times as seconds since midnight, and their textual
//! forms.  The spreadsheet day-serial epoch 1899-12-30 lies 25569 days
//! before the Unix epoch.
use vstd::prelude::*;

use crate::text::{
    all_digits, digits_val, first_at, is_digit, lemma_first_at_found, pad2,
    pad4, push_pad2, push_pad4,
};

verus! {

/// Days between the spreadsheet epoch (1899-12-30) and the Unix epoch
/// (1970-01-01).
pub const EXCEL_UNIX_OFFSET_DAYS: u32 = 25569;

/// The day count of the Unix epoch from 0001-01-01.
pub const UNIX_EPOCH_RD: u32 = 719162;

/// The smallest supported day count: 0001-01-01 as days since the Unix
/// epoch.
pub const MIN_UNIX_DAY: i64 = -719162;

/// The largest supported day count: 9999-12-31 as days since the Unix
/// epoch.
pub const MAX_UNIX_DAY: i64 = 2932896;

/// A calendar date.
#[derive(Debug, Clone, Copy, PartialEq, Eq, Structural)]
pub struct CivilDate {
    /// The year, 1 through 9999.
    pub year: i32,
    /// The month, 1 through 12.
    pub month: u8,
    /// The day of the month, 1 through the month's length.
    pub day: u8,
}

/// A time of day, to the second.
#[derive(Debug, Clone, Copy, PartialEq, Eq, Structural)]
pub struct ClockTime {
    /// The hour, 0 through 23.
    pub hour: u8,
    /// The minute, 0 through 59.
    pub minute: u8,
    /// The second, 0 through 59.
    pub second: u8,
}

/// A calendar date with a time of day.
#[derive(Debug, Clone, Copy, PartialEq, Eq, Structural)]
pub struct CivilDateTime {
    /// The date part.
    pub date: CivilDate,
    /// The time part.
    pub time: ClockTime,
}

/// Whether `y` is a leap year in the Gregorian calendar.
pub open spec fn is_leap(y: int) -> bool {
    y % 4 == 0 && (y % 100 != 0 || y % 400 == 0)
}

/// The length of a month, 1-based.
pub open spec fn days_in_month(y: int, m: int) -> int {
    if m == 2 {
        if is_leap(y) {
            29
        } else {
            28
        }
    } else if m == 4 || m == 6 || m == 9 || m == 11 {
        30
    } else {
        31
    }
}

/// Days from the first of January to the first of month `m` of year `y`.
pub open spec fn days_before_month(y: int, m: int) -> int
    decreases m,
{
    if m <= 1 {
        0
    } else {
        days_before_month(y, m - 1) + days_in_month(y, m - 1)
    }
}

/// The length of year `y` in days.
pub open spec fn year_length(y: int) -> int {
    if is_leap(y) {
        366
    } else {
        365
    }
}

/// Days from 0001-01-01 to the first of January of year `y >= 1`.
pub open spec fn days_before_year(y: int) -> int {
    (y - 1) * 365 + (y - 1) / 4 - (y - 1) / 100 + (y - 1) / 400
}

/// The day count of a date from 0001-01-01 (which has count zero).
pub open spec fn rata_die(y: int, m: int, d: int) -> int {
    days_before_year(y) + days_before_month(y, m) + (d - 1)
}

impl CivilDate {
    /// A well-formed date: every field in range.
    pub open spec fn valid(&self) -> bool {
        1 <= self.year <= 9999 && 1 <= self.month <= 12 && 1 <= self.day <= days_in_month(
            self.year as int,
            self.month as int,
        )
    }

    /// The date as days since the Unix epoch.
    pub open spec fn unix_days(&self) -> int {
        rata_die(self.year as int, self.month as int, self.day as int) - UNIX_EPOCH_RD
    }
}

impl ClockTime {
    /// A well-formed time: every field in range.
    pub open spec fn valid(&self) -> bool {
        self.hour < 24 && self.minute < 60 && self.second < 60
    }

    /// The time as seconds since midnight.
    pub open spec fn day_seconds(&self) -> int {
        self.hour as int * 3600 + self.minute as int * 60 + self.second as int
    }
}

impl CivilDateTime {
    /// A well-formed date and time.
    pub open spec fn valid(&self) -> bool {
        self.date.valid() && self.time.valid()
    }

    /// The moment as seconds since the Unix epoch.
    pub open spec fn unix_seconds(&self) -> int {
        self.date.unix_days() * 86400 + self.time.day_seconds()
    }
}

// --------------------------------------------------------------- lemmas

/// How a division by a positive constant changes when its argument steps
/// down by one.
proof fn lemma_div_step(y: int, d: int)
    requires
        d >= 1,
    ensures
        y / d - (y - 1) / d == if y % d == 0 {
            1int
        } else {
            0int
        },
{
    let q = y / d;
    let r = y % d;
    vstd::arithmetic::div_mod::lemma_fundamental_div_mod(y, d);
    vstd::arithmetic::div_mod::lemma_mod_bound(y, d);
    if r == 0 {
        assert((q - 1) * d + (d - 1) == q * d - 1) by (nonlinear_arith);
        vstd::arithmetic::div_mod::lemma_fundamental_div_mod_converse(y - 1, d, q - 1, d - 1);
    } else {
        vstd::arithmetic::div_mod::lemma_fundamental_div_mod_converse(y - 1, d, q, r - 1);
    }
}

/// Divisibility by 100 implies divisibility by 4, and by 400 implies by 100.
proof fn lemma_mod_chains(y: int)
    ensures
        y % 100 == 0 ==> y % 4 == 0,
        y % 400 == 0 ==> y % 100 == 0,
{
    if y % 100 == 0 {
        vstd::arithmetic::div_mod::lemma_fundamental_div_mod(y, 100);
        let k = y / 100;
        assert(y == 100 * k);
        assert(y == 4 * (25 * k)) by (nonlinear_arith)
            requires
                y == 100 * k,
        ;
        vstd::arithmetic::div_mod::lemma_mod_multiples_basic(25 * k, 4);
    }
    if y % 400 == 0 {
        vstd::arithmetic::div_mod::lemma_fundamental_div_mod(y, 400);
        let k = y / 400;
        assert(y == 400 * k);
        assert(y == 100 * (4 * k)) by (nonlinear_arith)
            requires
                y == 400 * k,
        ;
        vstd::arithmetic::div_mod::lemma_mod_multiples_basic(4 * k, 100);
    }
}

/// One year's step of the cumulative day count.
proof fn lemma_days_before_year_step(y: int)
    requires
        y >= 1,
    ensures
        days_before_year(y + 1) == days_before_year(y) + year_length(y),
{
    lemma_div_step(y, 4);
    lemma_div_step(y, 100);
    lemma_div_step(y, 400);
    lemma_mod_chains(y);
}

/// The months of a year sum to its length.
proof fn lemma_year_months(y: int)
    ensures
        days_before_month(y, 13) == year_length(y),
{
    reveal_with_fuel(days_before_month, 14);
}

// ----------------------------------------------------------------- exec

/// Whether `y` is a leap year.
pub fn leap_year(y: i32) -> (r: bool)
    requires
        y >= 0,
    ensures
        r == is_leap(y as int),
{
    y % 4 == 0 && (y % 100 != 0 || y % 400 == 0)
}

/// The length of month `m` of year `y`.
pub fn month_length(y: i32, m: u8) -> (r: u8)
    requires
        y >= 0,
    ensures
        r as int == days_in_month(y as int, m as int),
        28 <= r <= 31,
{
    if m == 2 {
        if leap_year(y) {
            29
        } else {
            28
        }
    } else if m == 4 || m == 6 || m == 9 || m == 11 {
        30
    } else {
        31
    }
}

/// Days from the first of January to the first of month `m`.
fn month_prefix(y: i32, m: u8) -> (r: u16)
    requires
        y >= 0,
        1 <= m <= 12,
    ensures
        r as int == days_before_month(y as int, m as int),
{
    proof {
        reveal_with_fuel(days_before_month, 14);
    }
    let base: u16 = match m {
        1 => 0,
        2 => 31,
        3 => 59,
        4 => 90,
        5 => 120,
        6 => 151,
        7 => 181,
        8 => 212,
        9 => 243,
        10 => 273,
        11 => 304,
        _ => 334,
    };
    if m > 2 && leap_year(y) {
        base + 1
    } else {
        base
    }
}

/// The date as days since the Unix epoch.
pub fn days_from_civil(d: &CivilDate) -> (r: i64)
    requires
        d.valid(),
    ensures
        r as int == d.unix_days(),
        MIN_UNIX_DAY <= r <= MAX_UNIX_DAY,
{
    let yy = (d.year - 1) as i64;
    let ydays = yy * 365 + yy / 4 - yy / 100 + yy / 400;
    let r = ydays + month_prefix(d.year, d.month) as i64 + (d.day - 1) as i64
        - UNIX_EPOCH_RD as i64;
    proof {
        lemma_month_prefix_bound(d.year as int, d.month as int);
        lemma_days_before_year_step(d.year as int);
        lemma_days_before_year_monotone(d.year as int + 1, 10000);
        assert(days_before_year(10000) == 3652059);
        lemma_days_before_year_monotone(1, d.year as int);
        assert(days_before_year(1) == 0);
    }
    r
}

/// The cumulative month table is bounded by the year's length.
proof fn lemma_month_prefix_bound(y: int, m: int)
    requires
        1 <= m <= 12,
    ensures
        days_before_month(y, m) + days_in_month(y, m) <= year_length(y),
    decreases 13 - m,
{
    if m == 12 {
        lemma_year_months(y);
    } else {
        lemma_month_prefix_bound(y, m + 1);
    }
}

/// The cumulative year count is monotone.
proof fn lemma_days_before_year_monotone(a: int, b: int)
    requires
        1 <= a <= b,
    ensures
        days_before_year(a) <= days_before_year(b),
    decreases b - a,
{
    if a < b {
        lemma_days_before_year_step(b - 1);
        lemma_days_before_year_monotone(a, b - 1);
    }
}

/// Recover the calendar date from a day count since the Unix epoch.
/// Day counts outside years 1 through 9999 are rejected.
pub fn civil_from_days(unix_day: i64) -> (r: Option<CivilDate>)
    ensures
        match r {
            Some(cd) => MIN_UNIX_DAY <= unix_day <= MAX_UNIX_DAY && cd.valid() && cd.unix_days()
                == unix_day,
            None => unix_day < MIN_UNIX_DAY || unix_day > MAX_UNIX_DAY,
        },
{
    if unix_day < MIN_UNIX_DAY || unix_day > MAX_UNIX_DAY {
        return None;
    }
    let rd: i64 = unix_day + UNIX_EPOCH_RD as i64;
    let mut y: i32 = 1;
    let mut rem: i64 = rd;
    let mut yl: i64 = if leap_year(1) {
        366
    } else {
        365
    };
    proof {
        assert(days_before_year(1) == 0);
    }
    while rem >= yl
        invariant
            1 <= y <= 9999,
            yl == year_length(y as int),
            days_before_year(y as int) + rem == rd,
            rem >= 0,
            0 <= rd <= 3652058,
        decreases rem,
    {
        proof {
            lemma_days_before_year_step(y as int);
            if y == 9999 {
                assert(days_before_year(10000) == 3652059);
                assert(false);
            }
        }
        rem = rem - yl;
        y = y + 1;
        yl = if leap_year(y) {
            366
        } else {
            365
        };
    }
    // rem is now the day of the year
    let mut m: u8 = 1;
    let mut ml: i64 = month_length(y, 1) as i64;
    let ghost rem_year = rem;
    while rem >= ml
        invariant
            1 <= m <= 12,
            1 <= y <= 9999,
            ml == days_in_month(y as int, m as int),
            days_before_month(y as int, m as int) + rem == rem_year,
            rem >= 0,
            rem_year < year_length(y as int),
            days_before_year(y as int) + rem_year == rd,
        decreases rem,
    {
        proof {
            if m == 12 {
                lemma_year_months(y as int);
                assert(false);
            }
        }
        rem = rem - ml;
        m = m + 1;
        ml = month_length(y, m) as i64;
    }
    let cd = CivilDate { year: y, month: m, day: (rem + 1) as u8 };
    Some(cd)
}

/// Split seconds since midnight into a clock time.
pub fn time_from_day_seconds(secs: u32) -> (r: ClockTime)
    requires
        secs < 86400,
    ensures
        r.valid(),
        r.day_seconds() == secs,
        r == clock_of_secs(secs as int),
{
    let hour = (secs / 3600) as u8;
    let minute = ((secs / 60) % 60) as u8;
    let second = (secs % 60) as u8;
    proof {
        assert(secs / 3600 < 24);
        assert(secs as int == (secs as int / 3600) * 3600 + (secs as int / 60) % 60 * 60 + (
        secs as int) % 60) by (nonlinear_arith);
    }
    ClockTime { hour, minute, second }
}

// -------------------------------------------------------- textual forms

/// The year field of `Y<sep>M<sep>D` text: the digits before the first
/// separator.
pub open spec fn date_year_field(s: Seq<char>, sep: char) -> Seq<char> {
    s.take(first_at(s, sep))
}

/// The text after the first separator.
pub open spec fn date_rest(s: Seq<char>, sep: char) -> Seq<char> {
    if first_at(s, sep) < s.len() {
        s.skip(first_at(s, sep) + 1)
    } else {
        Seq::empty()
    }
}

/// The month field: the digits between the two separators.
pub open spec fn date_month_field(s: Seq<char>, sep: char) -> Seq<char> {
    let rest = date_rest(s, sep);
    rest.take(first_at(rest, sep))
}

/// The day field: the digits after the second separator.
pub open spec fn date_day_field(s: Seq<char>, sep: char) -> Seq<char> {
    let rest = date_rest(s, sep);
    if first_at(rest, sep) < rest.len() {
        rest.skip(first_at(rest, sep) + 1)
    } else {
        Seq::empty()
    }
}

/// Whether the text reads `Y<sep>M<sep>D` with one to four year digits, one
/// or two month and day digits, and in-range values.
pub open spec fn valid_date_text(s: Seq<char>, sep: char) -> bool {
    let yp = date_year_field(s, sep);
    let mp = date_month_field(s, sep);
    let dp = date_day_field(s, sep);
    &&& first_at(s, sep) < s.len()
    &&& first_at(date_rest(s, sep), sep) < date_rest(s, sep).len()
    &&& 1 <= yp.len() <= 4
    &&& 1 <= mp.len() <= 2
    &&& 1 <= dp.len() <= 2
    &&& all_digits(yp)
    &&& all_digits(mp)
    &&& all_digits(dp)
    &&& 1 <= digits_val(yp) <= 9999
    &&& 1 <= digits_val(mp) <= 12
    &&& 1 <= digits_val(dp) <= days_in_month(digits_val(yp), digits_val(mp))
}

/// The hour field of `H:M:S` text.
pub open spec fn time_hour_field(s: Seq<char>) -> Seq<char> {
    date_year_field(s, ':')
}

/// The minute field of `H:M:S` text.
pub open spec fn time_minute_field(s: Seq<char>) -> Seq<char> {
    date_month_field(s, ':')
}

/// The second field of `H:M:S` text.
pub open spec fn time_second_field(s: Seq<char>) -> Seq<char> {
    date_day_field(s, ':')
}

/// Whether the text reads `H:M:S` with one or two digits per field and
/// in-range values.
pub open spec fn valid_time_text(s: Seq<char>) -> bool {
    let hp = time_hour_field(s);
    let mp = time_minute_field(s);
    let sp = time_second_field(s);
    &&& first_at(s, ':') < s.len()
    &&& first_at(date_rest(s, ':'), ':') < date_rest(s, ':').len()
    &&& 1 <= hp.len() <= 2
    &&& 1 <= mp.len() <= 2
    &&& 1 <= sp.len() <= 2
    &&& all_digits(hp)
    &&& all_digits(mp)
    &&& all_digits(sp)
    &&& digits_val(hp) <= 23
    &&& digits_val(mp) <= 59
    &&& digits_val(sp) <= 59
}

/// Parse a short run of digits: the whole text must be one to eight digits.
fn parse_small(t: &str) -> (r: Option<u32>)
    requires
        t@.len() <= 8,
    ensures
        match r {
            Some(v) => t@.len() >= 1 && all_digits(t@) && v as int == digits_val(t@),
            None => t@.len() == 0 || !all_digits(t@),
        },
{
    let n = t.unicode_len();
    if n == 0 {
        return None;
    }
    let mut acc: u32 = 0;
    let mut i: usize = 0;
    while i < n
        invariant
            i <= n == t@.len(),
            n <= 8,
            all_digits(t@.take(i as int)),
            acc as int == digits_val(t@.take(i as int)),
            (acc as int) < crate::serial::pow10(i as int),
        decreases n - i,
    {
        let c = t.get_char(i);
        if !('0' <= c && c <= '9') {
            return None;
        }
        proof {
            crate::serial::lemma_pow10_increases(i as int, 7);
            reveal_with_fuel(crate::serial::pow10, 11);
            let u = t@.take(i + 1);
            assert(u.drop_last() =~= t@.take(i as int));
            assert(u.last() == t@[i as int]);
            assert forall|j: int| 0 <= j < u.len() implies is_digit(#[trigger] u[j]) by {
                if j < u.len() - 1 {
                    assert(u[j] == u.drop_last()[j]);
                }
            }
        }
        acc = acc * 10 + ((c as u32) - 48);
        proof {
            crate::serial::lemma_digits_val_bound(t@.take(i + 1));
        }
        i += 1;
    }
    proof {
        assert(t@.take(n as int) =~= t@);
    }
    Some(acc)
}

/// Find the first occurrence of `sep` at or after `from`.
fn find_sep(s: &str, from: usize, sep: char) -> (r: Option<usize>)
    requires
        from <= s@.len(),
    ensures
        match r {
            Some(p) => from <= p < s@.len() && s@[p as int] == sep && forall|j: int|
                from <= j < p ==> s@[j] != sep,
            None => forall|j: int| from <= j < s@.len() ==> s@[j] != sep,
        },
{
    let n = s.unicode_len();
    let mut i: usize = from;
    while i < n
        invariant
            from <= i <= n == s@.len(),
            forall|j: int| from <= j < i ==> s@[j] != sep,
        decreases n - i,
    {
        if s.get_char(i) == sep {
            return Some(i);
        }
        i += 1;
    }
    None
}

/// Parse `Y<sep>M<sep>D` text into a calendar date.
pub fn parse_date_text(s: &str, sep: char) -> (r: Option<CivilDate>)
    ensures
        match r {
            Some(cd) => valid_date_text(s@, sep) && cd.valid() && cd.year as int == digits_val(
                date_year_field(s@, sep),
            ) && cd.month as int == digits_val(date_month_field(s@, sep)) && cd.day as int
                == digits_val(date_day_field(s@, sep)),
            None => !valid_date_text(s@, sep),
        },
{
    let n = s.unicode_len();
    let p1 = match find_sep(s, 0, sep) {
        Some(p) => p,
        None => {
            proof {
                lemma_first_at_found(s@, sep, s@.len() as int);
            }
            return None;
        },
    };
    proof {
        lemma_first_at_found(s@, sep, p1 as int);
        assert(date_rest(s@, sep) =~= s@.skip(p1 + 1));
    }
    let ghost rest = date_rest(s@, sep);
    let p2 = match find_sep(s, p1 + 1, sep) {
        Some(p) => p,
        None => {
            proof {
                assert forall|j: int| 0 <= j < rest.len() implies rest[j] != sep by {
                    assert(rest[j] == s@[p1 + 1 + j]);
                }
                lemma_first_at_found(rest, sep, rest.len() as int);
            }
            return None;
        },
    };
    proof {
        assert forall|j: int| 0 <= j < p2 - p1 - 1 implies rest[j] != sep by {
            assert(rest[j] == s@[p1 + 1 + j]);
        }
        assert(rest[p2 - p1 - 1] == s@[p2 as int]);
        lemma_first_at_found(rest, sep, p2 - p1 - 1);
    }
    if p1 < 1 || p1 > 4 || p2 - p1 - 1 < 1 || p2 - p1 - 1 > 2 || n - p2 - 1 < 1 || n - p2 - 1
        > 2 {
        proof {
            assert(date_year_field(s@, sep).len() == p1);
            assert(date_month_field(s@, sep).len() == p2 - p1 - 1);
            assert(date_day_field(s@, sep).len() == n - p2 - 1);
        }
        return None;
    }
    let yt = s.substring_char(0, p1);
    let mt = s.substring_char(p1 + 1, p2);
    let dt = s.substring_char(p2 + 1, n);
    proof {
        assert(yt@ =~= date_year_field(s@, sep));
        assert(mt@ =~= date_month_field(s@, sep));
        assert(dt@ =~= date_day_field(s@, sep));
    }
    let y = match parse_small(yt) {
        Some(v) => v,
        None => {
            return None;
        },
    };
    let m = match parse_small(mt) {
        Some(v) => v,
        None => {
            return None;
        },
    };
    let d = match parse_small(dt) {
        Some(v) => v,
        None => {
            return None;
        },
    };
    proof {
        crate::serial::lemma_digits_val_bound(yt@);
        crate::serial::lemma_digits_val_bound(mt@);
        crate::serial::lemma_digits_val_bound(dt@);
        reveal_with_fuel(crate::serial::pow10, 11);
    }
    if y < 1 || m < 1 || m > 12 {
        return None;
    }
    let cd = CivilDate { year: y as i32, month: m as u8, day: d as u8 };
    if d < 1 || (d as u8) > month_length(y as i32, m as u8) {
        return None;
    }
    Some(cd)
}

/// Parse `H:M:S` text into a clock time.
pub fn parse_time_text(s: &str) -> (r: Option<ClockTime>)
    ensures
        match r {
            Some(t) => valid_time_text(s@) && t.valid() && t.hour as int == digits_val(
                time_hour_field(s@),
            ) && t.minute as int == digits_val(time_minute_field(s@)) && t.second as int
                == digits_val(time_second_field(s@)),
            None => !valid_time_text(s@),
        },
{
    let n = s.unicode_len();
    let p1 = match find_sep(s, 0, ':') {
        Some(p) => p,
        None => {
            proof {
                lemma_first_at_found(s@, ':', s@.len() as int);
            }
            return None;
        },
    };
    proof {
        lemma_first_at_found(s@, ':', p1 as int);
        assert(date_rest(s@, ':') =~= s@.skip(p1 + 1));
    }
    let ghost rest = date_rest(s@, ':');
    let p2 = match find_sep(s, p1 + 1, ':') {
        Some(p) => p,
        None => {
            proof {
                assert forall|j: int| 0 <= j < rest.len() implies rest[j] != ':' by {
                    assert(rest[j] == s@[p1 + 1 + j]);
                }
                lemma_first_at_found(rest, ':', rest.len() as int);
            }
            return None;
        },
    };
    proof {
        assert forall|j: int| 0 <= j < p2 - p1 - 1 implies rest[j] != ':' by {
            assert(rest[j] == s@[p1 + 1 + j]);
        }
        assert(rest[p2 - p1 - 1] == s@[p2 as int]);
        lemma_first_at_found(rest, ':', p2 - p1 - 1);
    }
    if p1 < 1 || p1 > 2 || p2 - p1 - 1 < 1 || p2 - p1 - 1 > 2 || n - p2 - 1 < 1 || n - p2 - 1
        > 2 {
        proof {
            assert(time_hour_field(s@).len() == p1);
            assert(time_minute_field(s@).len() == p2 - p1 - 1);
            assert(time_second_field(s@).len() == n - p2 - 1);
        }
        return None;
    }
    let ht = s.substring_char(0, p1);
    let mt = s.substring_char(p1 + 1, p2);
    let st = s.substring_char(p2 + 1, n);
    proof {
        assert(ht@ =~= time_hour_field(s@));
        assert(mt@ =~= time_minute_field(s@));
        assert(st@ =~= time_second_field(s@));
    }
    let h = match parse_small(ht) {
        Some(v) => v,
        None => {
            return None;
        },
    };
    let m = match parse_small(mt) {
        Some(v) => v,
        None => {
            return None;
        },
    };
    let sec = match parse_small(st) {
        Some(v) => v,
        None => {
            return None;
        },
    };
    if h > 23 || m > 59 || sec > 59 {
        return None;
    }
    Some(ClockTime { hour: h as u8, minute: m as u8, second: sec as u8 })
}

/// Whether the text reads `date<space>time` with both halves valid.
pub open spec fn valid_datetime_text(s: Seq<char>, sep: char) -> bool {
    &&& first_at(s, ' ') < s.len()
    &&& valid_date_text(s.take(first_at(s, ' ')), sep)
    &&& valid_time_text(s.skip(first_at(s, ' ') + 1))
}

/// The date half of `date<space>time` text.
pub open spec fn datetime_date_part(s: Seq<char>) -> Seq<char> {
    s.take(first_at(s, ' '))
}

/// The time half of `date<space>time` text.
pub open spec fn datetime_time_part(s: Seq<char>) -> Seq<char> {
    s.skip(first_at(s, ' ') + 1)
}

/// Parse `Y<sep>M<sep>D H:M:S` text into a date and time.
pub fn parse_datetime_text(s: &str, sep: char) -> (r: Option<CivilDateTime>)
    ensures
        match r {
            Some(dt) => valid_datetime_text(s@, sep) && dt.valid() && dt.date.year as int
                == digits_val(date_year_field(datetime_date_part(s@), sep)) && dt.date.month as int
                == digits_val(date_month_field(datetime_date_part(s@), sep))
                && dt.date.day as int == digits_val(date_day_field(datetime_date_part(s@), sep))
                && dt.time.hour as int == digits_val(time_hour_field(datetime_time_part(s@)))
                && dt.time.minute as int == digits_val(time_minute_field(datetime_time_part(s@)))
                && dt.time.second as int == digits_val(time_second_field(datetime_time_part(s@))),
            None => !valid_datetime_text(s@, sep),
        },
{
    let n = s.unicode_len();
    let sp = match find_sep(s, 0, ' ') {
        Some(p) => p,
        None => {
            proof {
                lemma_first_at_found(s@, ' ', s@.len() as int);
            }
            return None;
        },
    };
    proof {
        lemma_first_at_found(s@, ' ', sp as int);
    }
    let dpart = s.substring_char(0, sp);
    let tpart = s.substring_char(sp + 1, n);
    proof {
        assert(dpart@ =~= datetime_date_part(s@));
        assert(tpart@ =~= datetime_time_part(s@));
    }
    let date = match parse_date_text(dpart, sep) {
        Some(d) => d,
        None => {
            return None;
        },
    };
    let time = match parse_time_text(tpart) {
        Some(t) => t,
        None => {
            return None;
        },
    };
    Some(CivilDateTime { date, time })
}

/// The textual form of a date: four year digits, two month digits, two day
/// digits, dash-separated.
pub open spec fn date_text(cd: CivilDate) -> Seq<char> {
    pad4(cd.year as int) + seq!['-'] + pad2(cd.month as int) + seq!['-'] + pad2(cd.day as int)
}

/// The textual form of a clock time: two digits per field, colon-separated.
pub open spec fn clock_text(t: ClockTime) -> Seq<char> {
    pad2(t.hour as int) + seq![':'] + pad2(t.minute as int) + seq![':'] + pad2(t.second as int)
}

/// The textual form of a date and time, space-separated.
pub open spec fn datetime_text(dt: CivilDateTime) -> Seq<char> {
    date_text(dt.date) + seq![' '] + clock_text(dt.time)
}

/// Append the textual form of a date to `out`.
pub fn push_date_text(out: &mut Vec<char>, cd: &CivilDate)
    requires
        cd.valid(),
    ensures
        final(out)@ == old(out)@ + date_text(*cd),
{
    push_pad4(out, cd.year as u32);
    out.push('-');
    push_pad2(out, cd.month as u32);
    out.push('-');
    push_pad2(out, cd.day as u32);
    proof {
        assert(out@ =~= old(out)@ + date_text(*cd));
    }
}

/// Append the textual form of a clock time to `out`.
pub fn push_clock_text(out: &mut Vec<char>, t: &ClockTime)
    requires
        t.valid(),
    ensures
        final(out)@ == old(out)@ + clock_text(*t),
{
    push_pad2(out, t.hour as u32);
    out.push(':');
    push_pad2(out, t.minute as u32);
    out.push(':');
    push_pad2(out, t.second as u32);
    proof {
        assert(out@ =~= old(out)@ + clock_text(*t));
    }
}

/// Append the textual form of a date and time to `out`.
pub fn push_datetime_text(out: &mut Vec<char>, dt: &CivilDateTime)
    requires
        dt.valid(),
    ensures
        final(out)@ == old(out)@ + datetime_text(*dt),
{
    push_date_text(out, &dt.date);
    out.push(' ');
    push_clock_text(out, &dt.time);
    proof {
        assert(out@ =~= old(out)@ + datetime_text(*dt));
    }
}

// ------------------------------------------------- the day-count bijection

/// The time of day holding the given seconds since midnight.
pub open spec fn clock_of_secs(secs: int) -> ClockTime {
    ClockTime {
        hour: (secs / 3600) as u8,
        minute: ((secs / 60) % 60) as u8,
        second: (secs % 60) as u8,
    }
}

/// The valid calendar date with the given day count since the Unix epoch;
/// by [`lemma_civil_unique`] there is exactly one for every supported
/// count.
pub open spec fn date_of_unix(day: int) -> CivilDate {
    choose|cd: CivilDate| cd.valid() && cd.unix_days() == day
}

proof fn lemma_dbm_nonneg(y: int, m: int)
    requires
        m >= 1,
    ensures
        days_before_month(y, m) >= 0,
    decreases m,
{
    if m > 1 {
        lemma_dbm_nonneg(y, m - 1);
    }
}

proof fn lemma_dbm_monotone(y: int, m1: int, m2: int)
    requires
        1 <= m1 < m2,
    ensures
        days_before_month(y, m1) + days_in_month(y, m1) <= days_before_month(y, m2),
    decreases m2 - m1,
{
    if m1 + 1 < m2 {
        lemma_dbm_monotone(y, m1 + 1, m2);
    }
}

/// Every supported day count names a valid date.
pub proof fn lemma_civil_exists(day: int)
    requires
        MIN_UNIX_DAY <= day <= MAX_UNIX_DAY,
    ensures
        date_of_unix(day).valid(),
        date_of_unix(day).unix_days() == day,
    decreases day - MIN_UNIX_DAY,
{
    if day == MIN_UNIX_DAY {
        let w = CivilDate { year: 1, month: 1, day: 1 };
        assert(w.valid());
        assert(w.unix_days() == MIN_UNIX_DAY);
        assert(date_of_unix(day).valid() && date_of_unix(day).unix_days() == day) by {
            assert(w.valid() && w.unix_days() == day);
        }
    } else {
        lemma_civil_exists(day - 1);
        let p = date_of_unix(day - 1);
        let y = p.year as int;
        let m = p.month as int;
        let d = p.day as int;
        if d < days_in_month(y, m) {
            let w = CivilDate { year: p.year, month: p.month, day: (p.day + 1) as u8 };
            assert(w.valid() && w.unix_days() == day);
        } else if m < 12 {
            let w = CivilDate { year: p.year, month: (p.month + 1) as u8, day: 1 };
            assert(days_before_month(y, m + 1) == days_before_month(y, m) + days_in_month(y, m));
            assert(w.valid() && w.unix_days() == day);
        } else {
            // p is the last day of its year
            assert(rata_die(9999, 12, 31) == 3652058) by {
                reveal_with_fuel(days_before_month, 14);
            }
            if p.year == 9999 {
                reveal_with_fuel(days_before_month, 14);
                assert(p.unix_days() == MAX_UNIX_DAY);
                assert(false);
            }
            let w = CivilDate { year: (p.year + 1) as i32, month: 1, day: 1 };
            lemma_days_before_year_step(y);
            lemma_year_months(y);
            assert(days_before_month(y, 13) == days_before_month(y, 12) + days_in_month(y, 12));
            assert(w.valid() && w.unix_days() == day);
        }
    }
}

/// At most one valid date has a given day count: the calendar and the day
/// count are in bijection.
pub proof fn lemma_civil_unique(a: CivilDate, b: CivilDate)
    requires
        a.valid(),
        b.valid(),
        a.unix_days() == b.unix_days(),
    ensures
        a == b,
{
    lemma_civil_year_unique(a, b);
    lemma_civil_year_unique(b, a);
    assert(a.year == b.year);
    lemma_civil_month_unique(a, b);
    lemma_civil_month_unique(b, a);
    assert(a.month == b.month);
    assert(a.day == b.day);
}

proof fn lemma_civil_year_unique(a: CivilDate, b: CivilDate)
    requires
        a.valid(),
        b.valid(),
        a.unix_days() == b.unix_days(),
    ensures
        a.year >= b.year,
{
    if a.year < b.year {
        lemma_month_prefix_bound(a.year as int, a.month as int);
        lemma_days_before_year_step(a.year as int);
        lemma_days_before_year_monotone(a.year as int + 1, b.year as int);
        lemma_dbm_nonneg(b.year as int, b.month as int);
        assert(false);
    }
}

proof fn lemma_civil_month_unique(a: CivilDate, b: CivilDate)
    requires
        a.valid(),
        b.valid(),
        a.year == b.year,
        a.unix_days() == b.unix_days(),
    ensures
        a.month >= b.month,
{
    if a.month < b.month {
        lemma_dbm_monotone(a.year as int, a.month as int, b.month as int);
        assert(false);
    }
}

} // verus!
