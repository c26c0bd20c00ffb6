//! Typed reading of cell values: each request type converts from a raw
//! [`CellValue`] with format fallbacks and null-sentinel handling, and the
//! typed values convert back.  Day-serials convert through the 1899-12-30
//! epoch with the fraction of the day scaled to seconds.
use vstd::prelude::*;

use crate::cell::{CellValue, FromCellValue, IntoCellValue};
use crate::dates::{
    clock_of_secs, clock_text, date_of_unix, date_text, datetime_text, lemma_civil_exists,
    lemma_civil_unique, parse_date_text, parse_datetime_text, parse_time_text, push_clock_text,
    push_date_text, push_datetime_text, time_from_day_seconds, valid_date_text,
    valid_datetime_text, valid_time_text, CivilDate, CivilDateTime, ClockTime, MAX_UNIX_DAY,
    MIN_UNIX_DAY,
};
use crate::serial::{num_body, num_neg, parse_serial, serial_days_of, valid_number, Serial,
    SERIAL_DAYS_MAX};
use crate::text::{all_digits, digits_val, is_digit, str_eq, string_from_chars};
use crate::{Date32, Timesecond, Timestamp, XlsxError};

verus! {

/// The day-serial offset of the Unix epoch, in milliseconds.
pub const EXCEL_UNIX_OFFSET_MS: u64 = 2209161600000;

/// The day-serial offset of the Unix epoch, in seconds.
pub const EXCEL_UNIX_OFFSET_SECS: u64 = 2209161600;

// ------------------------------------------------------- null sentinels

/// Whether the text is one of the null sentinels: empty, `-`, `--` or
/// `#N/A`.  For numeric and date requests these coerce to "no value"
/// instead of an error.
pub open spec fn null_text(s: Seq<char>) -> bool {
    s.len() == 0 || s == "-"@ || s == "--"@ || s == "#N/A"@
}

/// Whether the text is one of the null sentinels.
pub fn is_null_text(s: &str) -> (r: bool)
    ensures
        r == null_text(s@),
{
    if s.unicode_len() == 0 {
        return true;
    }
    str_eq(s, "-") || str_eq(s, "--") || str_eq(s, "#N/A")
}

// ------------------------------------------------ serial-derived values

/// The serial's whole part as a day count since the Unix epoch.
pub open spec fn serial_unix_day(se: Serial) -> int {
    se.trunc_val() - 25569
}

/// The fraction of the day in whole seconds, clamped to zero for negative
/// serials (as an unsigned second-of-day read does).
pub open spec fn frac_secs_unsigned(se: Serial) -> int {
    if se.neg && se.millis > 0 {
        0
    } else {
        se.millis as int / 1000
    }
}

/// The fraction of the day in whole seconds, negative for negative
/// serials.
pub open spec fn frac_secs_signed(se: Serial) -> int {
    if se.neg {
        -(se.millis as int / 1000)
    } else {
        se.millis as int / 1000
    }
}

/// The serial as a moment: seconds since the Unix epoch, from the whole
/// days plus the fraction truncated to seconds.
pub open spec fn serial_moment_secs(se: Serial) -> int {
    (if se.neg {
        -(se.days as int * 86400 + se.millis as int / 1000)
    } else {
        se.days as int * 86400 + se.millis as int / 1000
    }) - EXCEL_UNIX_OFFSET_SECS
}

/// The serial read as a timestamp: `(serial - 25569) * 86400` truncated
/// toward zero, computed exactly at millisecond precision.
pub open spec fn excel_timestamp(se: Serial) -> int {
    let vms = if se.neg {
        -(se.days as int * 86400000 + se.millis as int)
    } else {
        se.days as int * 86400000 + se.millis as int
    };
    let xms = vms - EXCEL_UNIX_OFFSET_MS;
    if xms >= 0 {
        xms / 1000
    } else {
        -((-xms) / 1000)
    }
}

// ------------------------------------------------------ sign-magnitude

/// Floor-divide a signed value, given as sign and magnitude in seconds,
/// by one day; returns the day and the nonnegative remainder.
fn floordiv_day(neg: bool, mag: u64) -> (r: (i64, u32))
    requires
        mag <= 9000000000000000000,
    ensures
        ({
            let v = if neg {
                -(mag as int)
            } else {
                mag as int
            };
            r.0 == v / 86400 && r.1 == v % 86400 && r.1 < 86400
        }),
{
    let q = mag / 86400;
    let rm = mag % 86400;
    if !neg {
        proof {
            vstd::arithmetic::div_mod::lemma_fundamental_div_mod(mag as int, 86400);
        }
        (q as i64, rm as u32)
    } else if rm == 0 {
        proof {
            let v = -(mag as int);
            vstd::arithmetic::div_mod::lemma_fundamental_div_mod(mag as int, 86400);
            assert(v == (-(q as int)) * 86400 + 0) by (nonlinear_arith)
                requires
                    mag as int == (q as int) * 86400,
                    v == -(mag as int),
            ;
            vstd::arithmetic::div_mod::lemma_fundamental_div_mod_converse(v, 86400, -(q as int), 0);
        }
        (-(q as i64), 0)
    } else {
        proof {
            let v = -(mag as int);
            vstd::arithmetic::div_mod::lemma_fundamental_div_mod(mag as int, 86400);
            assert(v == (-(q as int) - 1) * 86400 + (86400 - rm)) by (nonlinear_arith)
                requires
                    mag as int == (q as int) * 86400 + rm,
                    v == -(mag as int),
            ;
            vstd::arithmetic::div_mod::lemma_fundamental_div_mod_converse(
                v,
                86400,
                -(q as int) - 1,
                86400 - rm,
            );
        }
        (-(q as i64) - 1, (86400 - rm) as u32)
    }
}

/// Subtract `off` from a signed value given as sign and magnitude; the
/// result again as sign and magnitude.
fn sub_offset(neg: bool, mag: u64, off: u64) -> (r: (bool, u64))
    requires
        mag <= 9000000000000000000,
        off <= 3000000000000000000,
    ensures
        ({
            let v = if neg {
                -(mag as int)
            } else {
                mag as int
            };
            let w = if r.0 {
                -(r.1 as int)
            } else {
                r.1 as int
            };
            w == v - off && r.1 <= mag + off
        }),
{
    if !neg {
        if mag >= off {
            (false, mag - off)
        } else {
            (true, off - mag)
        }
    } else {
        (true, mag + off)
    }
}

// --------------------------------------------------- the string request

/// What reading a cell as text returns.  Every variant has a textual form
/// except day-serials whose date lies outside years 1 through 9999.
pub open spec fn cell_string_spec(v: CellValue) -> Result<Seq<char>, ()> {
    match v {
        CellValue::Blank => Ok(Seq::empty()),
        CellValue::Bool(b) => Ok(
            if b {
                "true"@
            } else {
                "false"@
            },
        ),
        CellValue::Number(s) => Ok(s@),
        CellValue::Date(se) => {
            let day = serial_unix_day(se);
            if se.wf() && MIN_UNIX_DAY <= day <= MAX_UNIX_DAY {
                Ok(date_text(date_of_unix(day)))
            } else {
                Err(())
            }
        },
        CellValue::Time(se) => {
            if se.wf() {
                Ok(clock_text(clock_of_secs(frac_secs_unsigned(se))))
            } else {
                Err(())
            }
        },
        CellValue::Datetime(se) => {
            let m = serial_moment_secs(se);
            let day = m / 86400;
            let secs = m % 86400;
            if se.wf() && MIN_UNIX_DAY <= day <= MAX_UNIX_DAY {
                Ok(
                    datetime_text(
                        CivilDateTime { date: date_of_unix(day), time: clock_of_secs(secs) },
                    ),
                )
            } else {
                Err(())
            }
        },
        CellValue::Shared(s) => Ok(s@),
        CellValue::String(s) => Ok(s@),
        CellValue::Error(s) => Ok(s@),
    }
}

/// Read a cell as text.  Strings, errors and raw numbers return their own
/// text; booleans read as `true`/`false`; a blank reads as the empty
/// string; day-serials are rendered as dates, clock times or both.
pub fn cell_to_string(v: &CellValue) -> (r: Result<Option<String>, XlsxError>)
    ensures
        match cell_string_spec(*v) {
            Ok(t) => r matches Ok(rr) && rr matches Some(s) && s@ == t,
            Err(u) => r == Err::<Option<String>, XlsxError>(XlsxError::TypeCoercionError),
        },
{
    match v {
        CellValue::Blank => Ok(Some(String::new())),
        CellValue::Bool(b) => {
            if *b {
                Ok(Some(String::from_str("true")))
            } else {
                Ok(Some(String::from_str("false")))
            }
        },
        CellValue::Number(s) => Ok(Some(s.clone())),
        CellValue::Date(se) => {
            match date_of_serial(se) {
                Some(cd) => {
                    let mut out: Vec<char> = Vec::new();
                    push_date_text(&mut out, &cd);
                    Ok(Some(string_from_chars(&out)))
                },
                None => Err(XlsxError::TypeCoercionError),
            }
        },
        CellValue::Time(se) => {
            match clock_of_serial_unsigned(se) {
                Some(t) => {
                    let mut out: Vec<char> = Vec::new();
                    push_clock_text(&mut out, &t);
                    Ok(Some(string_from_chars(&out)))
                },
                None => Err(XlsxError::TypeCoercionError),
            }
        },
        CellValue::Datetime(se) => {
            match datetime_of_serial(se) {
                Some(dt) => {
                    let mut out: Vec<char> = Vec::new();
                    push_datetime_text(&mut out, &dt);
                    Ok(Some(string_from_chars(&out)))
                },
                None => Err(XlsxError::TypeCoercionError),
            }
        },
        CellValue::Shared(s) => Ok(Some(s.clone())),
        CellValue::String(s) => Ok(Some(s.clone())),
        CellValue::Error(s) => Ok(Some(s.clone())),
    }
}

/// The calendar date of a day-serial's whole part, when it lies in the
/// supported years.
pub fn date_of_serial(se: &Serial) -> (r: Option<CivilDate>)
    ensures
        ({
            let day = serial_unix_day(*se);
            match r {
                Some(cd) => se.wf() && MIN_UNIX_DAY <= day <= MAX_UNIX_DAY && cd == date_of_unix(
                    day,
                ) && cd.valid() && cd.unix_days() == day,
                None => !se.wf() || day < MIN_UNIX_DAY || day > MAX_UNIX_DAY,
            }
        }),
{
    if se.days > SERIAL_DAYS_MAX || se.millis >= crate::serial::DAY_MILLIS {
        return None;
    }
    let t = se.days as i64;
    let day = if se.neg {
        -t - 25569
    } else {
        t - 25569
    };
    match crate::dates::civil_from_days(day) {
        Some(cd) => {
            proof {
                lemma_civil_exists(day as int);
                lemma_civil_unique(cd, date_of_unix(day as int));
            }
            Some(cd)
        },
        None => None,
    }
}

/// The clock time of a day-serial's fraction, read unsigned (a negative
/// fraction reads as midnight).
pub fn clock_of_serial_unsigned(se: &Serial) -> (r: Option<ClockTime>)
    ensures
        match r {
            Some(t) => se.wf() && t == clock_of_secs(frac_secs_unsigned(*se)) && t.valid(),
            None => !se.wf(),
        },
{
    if se.days > SERIAL_DAYS_MAX || se.millis >= crate::serial::DAY_MILLIS {
        return None;
    }
    let secs: u32 = if se.neg && se.millis > 0 {
        0
    } else {
        se.millis / 1000
    };
    Some(time_from_day_seconds(secs))
}

/// The calendar date and clock time of a day-serial read as a moment: the
/// whole days plus the fraction truncated to seconds.
pub fn datetime_of_serial(se: &Serial) -> (r: Option<CivilDateTime>)
    ensures
        ({
            let m = serial_moment_secs(*se);
            let day = m / 86400;
            let secs = m % 86400;
            match r {
                Some(dt) => se.wf() && MIN_UNIX_DAY <= day <= MAX_UNIX_DAY && dt.date
                    == date_of_unix(day) && dt.time == clock_of_secs(secs) && dt.valid(),
                None => !se.wf() || day < MIN_UNIX_DAY || day > MAX_UNIX_DAY,
            }
        }),
{
    if se.days > SERIAL_DAYS_MAX || se.millis >= crate::serial::DAY_MILLIS {
        return None;
    }
    let mag: u64 = se.days * 86400 + (se.millis / 1000) as u64;
    let (mneg, mmag) = sub_offset(se.neg, mag, EXCEL_UNIX_OFFSET_SECS);
    let (day, secs) = floordiv_day(mneg, mmag);
    if day < MIN_UNIX_DAY || day > MAX_UNIX_DAY {
        return None;
    }
    let cd = match crate::dates::civil_from_days(day) {
        Some(cd) => cd,
        None => {
            return None;
        },
    };
    proof {
        lemma_civil_exists(day as int);
        lemma_civil_unique(cd, date_of_unix(day as int));
    }
    let t = time_from_day_seconds(secs);
    Some(CivilDateTime { date: cd, time: t })
}

// ----------------------------------------------------- the i64 request

/// Whether the text is an optionally signed run of digits whose value
/// fits an `i64`.
pub open spec fn valid_i64_text(s: Seq<char>) -> bool {
    let b = num_body(s);
    b.len() >= 1 && all_digits(b) && (if num_neg(s) {
        digits_val(b) <= 9223372036854775808
    } else {
        digits_val(b) <= 9223372036854775807
    })
}

/// The value of signed integer text.
pub open spec fn i64_text_val(s: Seq<char>) -> int {
    if num_neg(s) {
        -digits_val(num_body(s))
    } else {
        digits_val(num_body(s))
    }
}

/// Parse optionally signed integer text into an `i64`.
pub fn parse_i64_text(s: &str) -> (r: Option<i64>)
    ensures
        match r {
            Some(v) => valid_i64_text(s@) && v as int == i64_text_val(s@),
            None => !valid_i64_text(s@),
        },
{
    let n = s.unicode_len();
    let ghost w = s@;
    let mut start: usize = 0;
    let mut neg = false;
    if n > 0 {
        let c0 = s.get_char(0);
        if c0 == '-' {
            neg = true;
            start = 1;
        } else if c0 == '+' {
            start = 1;
        }
    }
    let ghost b = num_body(w);
    proof {
        assert(b =~= w.skip(start as int));
    }
    if start == n {
        return None;
    }
    let mut acc: u128 = 0;
    let mut i: usize = start;
    while i < n
        invariant
            start <= i <= n == w.len(),
            start < n,
            w == s@,
            b == num_body(w),
            b =~= w.skip(start as int),
            neg == num_neg(w),
            all_digits(b.take(i - start)),
            acc as int == digits_val(b.take(i - start)),
            acc <= 9223372036854775808,
        decreases n - i,
    {
        let c = s.get_char(i);
        proof {
            assert(b[i - start] == w[i as int]);
        }
        if !('0' <= c && c <= '9') {
            proof {
                assert(!is_digit(b[i - start]));
            }
            return None;
        }
        let d = ((c as u32) - 48) as u128;
        acc = acc * 10 + d;
        proof {
            let t = b.take(i - start + 1);
            assert(t.drop_last() =~= b.take(i - start));
            assert(t.last() == b[i - start]);
            assert forall|j: int| 0 <= j < t.len() implies is_digit(#[trigger] t[j]) by {
                if j < t.len() - 1 {
                    assert(t[j] == t.drop_last()[j]);
                }
            }
        }
        if acc > 9223372036854775808 {
            proof {
                if all_digits(b) {
                    crate::text::lemma_digits_val_prefix(b, i - start + 1);
                }
            }
            return None;
        }
        i += 1;
    }
    proof {
        assert(b.take(n - start) =~= b);
    }
    if neg {
        if acc == 9223372036854775808 {
            Some(i64::MIN)
        } else {
            Some(-(acc as i64))
        }
    } else {
        if acc == 9223372036854775808 {
            None
        } else {
            Some(acc as i64)
        }
    }
}

/// The text with every `','` removed.
pub open spec fn strip_commas(s: Seq<char>) -> Seq<char>
    decreases s.len(),
{
    if s.len() == 0 {
        Seq::empty()
    } else {
        let r = strip_commas(s.drop_last());
        if s.last() == ',' {
            r
        } else {
            r.push(s.last())
        }
    }
}

/// Remove every `','` from the text.
pub fn strip_commas_exec(s: &str) -> (r: String)
    ensures
        r@ == strip_commas(s@),
{
    let n = s.unicode_len();
    let mut out: Vec<char> = Vec::new();
    let mut i: usize = 0;
    while i < n
        invariant
            i <= n == s@.len(),
            out@ == strip_commas(s@.take(i as int)),
        decreases n - i,
    {
        let c = s.get_char(i);
        proof {
            assert(s@.take(i + 1).drop_last() =~= s@.take(i as int));
            assert(s@.take(i + 1).last() == s@[i as int]);
        }
        if c != ',' {
            out.push(c);
        }
        i += 1;
    }
    proof {
        assert(s@.take(n as int) =~= s@);
    }
    string_from_chars(&out)
}

/// What reading text as an integer returns: the signed digits themselves,
/// a null sentinel as no value, the digits with thousands separators
/// removed, or an error.
pub open spec fn string_i64_spec(s: Seq<char>) -> Result<Option<i64>, ()> {
    if valid_i64_text(s) {
        Ok(Some(i64_text_val(s) as i64))
    } else if null_text(s) {
        Ok(None)
    } else if valid_i64_text(strip_commas(s)) {
        Ok(Some(i64_text_val(strip_commas(s)) as i64))
    } else {
        Err(())
    }
}

/// Read string-shaped text as an integer, with the null and
/// comma-stripping fallbacks.
fn string_to_i64(s: &str) -> (r: Result<Option<i64>, XlsxError>)
    ensures
        match string_i64_spec(s@) {
            Ok(o) => r == Ok::<Option<i64>, XlsxError>(o),
            Err(u) => r == Err::<Option<i64>, XlsxError>(XlsxError::TypeCoercionError),
        },
{
    match parse_i64_text(s) {
        Some(v) => {
            proof {
                lemma_i64_text_val_fits(s@);
            }
            Ok(Some(v))
        },
        None => {
            if is_null_text(s) {
                Ok(None)
            } else {
                let t = strip_commas_exec(s);
                match parse_i64_text(t.as_str()) {
                    Some(v) => {
                        proof {
                            lemma_i64_text_val_fits(t@);
                        }
                        Ok(Some(v))
                    },
                    None => Err(XlsxError::TypeCoercionError),
                }
            }
        },
    }
}

/// A valid signed integer text's value is unchanged by the cast to `i64`.
proof fn lemma_i64_text_val_fits(s: Seq<char>)
    requires
        valid_i64_text(s),
    ensures
        i64_text_val(s) as i64 as int == i64_text_val(s),
{
    crate::text::lemma_digits_val_nonneg(num_body(s));
}

/// The serial that plain decimal number text denotes.
pub open spec fn serial_of_text(s: Seq<char>) -> Serial {
    Serial {
        neg: num_neg(s),
        days: serial_days_of(s) as u64,
        millis: crate::serial::serial_millis_of(s) as u32,
    }
}

/// Whether number text parses to a representable serial.
pub open spec fn number_ok(s: Seq<char>) -> bool {
    valid_number(s) && serial_days_of(s) <= SERIAL_DAYS_MAX
}

/// What reading a cell as an integer returns: integer text carries its
/// value, other numbers and day-serials truncate toward zero; booleans
/// read as one and zero; a blank reads as no value; an error cell, or
/// text that is not a number, fails.
pub open spec fn cell_i64_spec(v: CellValue) -> Result<Option<i64>, ()> {
    match v {
        CellValue::Blank => Ok(None),
        CellValue::Bool(b) => Ok(
            Some(
                if b {
                    1i64
                } else {
                    0i64
                },
            ),
        ),
        CellValue::Number(s) => if valid_i64_text(s@) {
            Ok(Some(i64_text_val(s@) as i64))
        } else if number_ok(s@) {
            Ok(Some(serial_of_text(s@).trunc_val() as i64))
        } else {
            Err(())
        },
        CellValue::Date(se) => if se.wf() {
            Ok(Some(se.trunc_val() as i64))
        } else {
            Err(())
        },
        CellValue::Time(se) => if se.wf() {
            Ok(Some(se.trunc_val() as i64))
        } else {
            Err(())
        },
        CellValue::Datetime(se) => if se.wf() {
            Ok(Some(se.trunc_val() as i64))
        } else {
            Err(())
        },
        CellValue::Shared(s) => string_i64_spec(s@),
        CellValue::String(s) => string_i64_spec(s@),
        CellValue::Error(s) => Err(()),
    }
}

/// Read a cell as an `i64`, per [`cell_i64_spec`].
pub fn cell_to_i64(v: &CellValue) -> (r: Result<Option<i64>, XlsxError>)
    ensures
        match cell_i64_spec(*v) {
            Ok(o) => r == Ok::<Option<i64>, XlsxError>(o),
            Err(u) => r == Err::<Option<i64>, XlsxError>(XlsxError::TypeCoercionError),
        },
{
    match v {
        CellValue::Blank => Ok(None),
        CellValue::Bool(b) => Ok(
            Some(
                if *b {
                    1i64
                } else {
                    0i64
                },
            ),
        ),
        CellValue::Number(s) => {
            match parse_i64_text(s.as_str()) {
                Some(v) => {
                    proof {
                        lemma_i64_text_val_fits(s@);
                    }
                    Ok(Some(v))
                },
                None => {
                    match parse_serial(s.as_str()) {
                        Some(sr) => {
                            let t = sr.days as i64;
                            Ok(
                                Some(
                                    if sr.neg {
                                        -t
                                    } else {
                                        t
                                    },
                                ),
                            )
                        },
                        None => Err(XlsxError::TypeCoercionError),
                    }
                },
            }
        },
        CellValue::Date(se) => serial_trunc_i64(se),
        CellValue::Time(se) => serial_trunc_i64(se),
        CellValue::Datetime(se) => serial_trunc_i64(se),
        CellValue::Shared(s) => string_to_i64(s.as_str()),
        CellValue::String(s) => string_to_i64(s.as_str()),
        CellValue::Error(s) => Err(XlsxError::TypeCoercionError),
    }
}

/// A well-formed serial truncated toward zero.
fn serial_trunc_i64(se: &Serial) -> (r: Result<Option<i64>, XlsxError>)
    ensures
        se.wf() ==> (r matches Ok(o) && o matches Some(x) && x as int == se.trunc_val()),
        !se.wf() ==> r == Err::<Option<i64>, XlsxError>(XlsxError::TypeCoercionError),
{
    if se.days > SERIAL_DAYS_MAX || se.millis >= crate::serial::DAY_MILLIS {
        return Err(XlsxError::TypeCoercionError);
    }
    let t = se.days as i64;
    Ok(
        Some(
            if se.neg {
                -t
            } else {
                t
            },
        ),
    )
}

// ---------------------------------------------------- the bool request

/// Whether the serial's magnitude exceeds the nonzero threshold of nine
/// thousandths of a day (at millisecond resolution).
pub open spec fn serial_nonzero(se: Serial) -> bool {
    se.days >= 1 || se.millis > 777600
}

/// What reading text as a boolean returns: exactly `true` or `false`, a
/// null sentinel as no value, anything else an error.
pub open spec fn string_bool_spec(s: Seq<char>) -> Result<Option<bool>, ()> {
    if s == "true"@ {
        Ok(Some(true))
    } else if s == "false"@ {
        Ok(Some(false))
    } else if null_text(s) {
        Ok(None)
    } else {
        Err(())
    }
}

/// What reading a cell as a boolean returns: numeric cells test their
/// magnitude against a small threshold, text must read `true` or `false`.
pub open spec fn cell_bool_spec(v: CellValue) -> Result<Option<bool>, ()> {
    match v {
        CellValue::Blank => Ok(None),
        CellValue::Bool(b) => Ok(Some(b)),
        CellValue::Number(s) => if valid_i64_text(s@) {
            Ok(Some(i64_text_val(s@) != 0))
        } else if number_ok(s@) {
            Ok(Some(serial_nonzero(serial_of_text(s@))))
        } else {
            Err(())
        },
        CellValue::Date(se) => if se.wf() {
            Ok(Some(serial_nonzero(se)))
        } else {
            Err(())
        },
        CellValue::Time(se) => if se.wf() {
            Ok(Some(serial_nonzero(se)))
        } else {
            Err(())
        },
        CellValue::Datetime(se) => if se.wf() {
            Ok(Some(serial_nonzero(se)))
        } else {
            Err(())
        },
        CellValue::Shared(s) => string_bool_spec(s@),
        CellValue::String(s) => string_bool_spec(s@),
        CellValue::Error(s) => Err(()),
    }
}

/// Read a cell as a `bool`, per [`cell_bool_spec`].
pub fn cell_to_bool(v: &CellValue) -> (r: Result<Option<bool>, XlsxError>)
    ensures
        match cell_bool_spec(*v) {
            Ok(o) => r == Ok::<Option<bool>, XlsxError>(o),
            Err(u) => r == Err::<Option<bool>, XlsxError>(XlsxError::TypeCoercionError),
        },
{
    match v {
        CellValue::Blank => Ok(None),
        CellValue::Bool(b) => Ok(Some(*b)),
        CellValue::Number(s) => {
            match parse_i64_text(s.as_str()) {
                Some(v) => {
                    proof {
                        lemma_i64_text_val_fits(s@);
                    }
                    Ok(Some(v != 0))
                },
                None => {
                    match parse_serial(s.as_str()) {
                        Some(sr) => Ok(Some(sr.days >= 1 || sr.millis > 777600)),
                        None => Err(XlsxError::TypeCoercionError),
                    }
                },
            }
        },
        CellValue::Date(se) => serial_nonzero_exec(se),
        CellValue::Time(se) => serial_nonzero_exec(se),
        CellValue::Datetime(se) => serial_nonzero_exec(se),
        CellValue::Shared(s) => string_to_bool(s.as_str()),
        CellValue::String(s) => string_to_bool(s.as_str()),
        CellValue::Error(s) => Err(XlsxError::TypeCoercionError),
    }
}

fn serial_nonzero_exec(se: &Serial) -> (r: Result<Option<bool>, XlsxError>)
    ensures
        se.wf() ==> (r matches Ok(o) && o matches Some(x) && x == serial_nonzero(*se)),
        !se.wf() ==> r == Err::<Option<bool>, XlsxError>(XlsxError::TypeCoercionError),
{
    if se.days > SERIAL_DAYS_MAX || se.millis >= crate::serial::DAY_MILLIS {
        return Err(XlsxError::TypeCoercionError);
    }
    Ok(Some(se.days >= 1 || se.millis > 777600))
}

fn string_to_bool(s: &str) -> (r: Result<Option<bool>, XlsxError>)
    ensures
        match string_bool_spec(s@) {
            Ok(o) => r == Ok::<Option<bool>, XlsxError>(o),
            Err(u) => r == Err::<Option<bool>, XlsxError>(XlsxError::TypeCoercionError),
        },
{
    if str_eq(s, "true") {
        Ok(Some(true))
    } else if str_eq(s, "false") {
        Ok(Some(false))
    } else if is_null_text(s) {
        Ok(None)
    } else {
        Err(XlsxError::TypeCoercionError)
    }
}

// ------------------------------------------------------- date requests

/// A serial parsed from number text equals the serial the text denotes.
pub proof fn lemma_serial_of_text(s: Seq<char>, sr: Serial)
    requires
        valid_number(s),
        serial_days_of(s) <= SERIAL_DAYS_MAX,
        sr.neg == num_neg(s),
        sr.days as int == serial_days_of(s),
        sr.millis as int == crate::serial::serial_millis_of(s),
    ensures
        sr == serial_of_text(s),
{
    crate::serial::lemma_serial_days_nonneg(s);
    crate::serial::lemma_serial_millis_bound(s);
}

/// The calendar date the `Y-M-D` (or `Y/M/D`) text denotes.
pub open spec fn text_date(s: Seq<char>, sep: char) -> CivilDate {
    CivilDate {
        year: digits_val(crate::dates::date_year_field(s, sep)) as i32,
        month: digits_val(crate::dates::date_month_field(s, sep)) as u8,
        day: digits_val(crate::dates::date_day_field(s, sep)) as u8,
    }
}

/// The date and time the `Y-M-D H:M:S` text denotes.
pub open spec fn text_datetime(s: Seq<char>, sep: char) -> CivilDateTime {
    CivilDateTime {
        date: text_date(crate::dates::datetime_date_part(s), sep),
        time: text_time(crate::dates::datetime_time_part(s)),
    }
}

/// The clock time the `H:M:S` text denotes.
pub open spec fn text_time(s: Seq<char>) -> ClockTime {
    ClockTime {
        hour: digits_val(crate::dates::time_hour_field(s)) as u8,
        minute: digits_val(crate::dates::time_minute_field(s)) as u8,
        second: digits_val(crate::dates::time_second_field(s)) as u8,
    }
}

/// What reading text as a date returns: dash form first, then slash form,
/// then the null sentinels, then an error.
pub open spec fn string_date_spec(s: Seq<char>) -> Result<Option<CivilDate>, ()> {
    if valid_date_text(s, '-') {
        Ok(Some(text_date(s, '-')))
    } else if valid_date_text(s, '/') {
        Ok(Some(text_date(s, '/')))
    } else if null_text(s) {
        Ok(None)
    } else {
        Err(())
    }
}

/// Read string text as a date, with both delimiter conventions and the
/// null fallback.
fn string_to_date(s: &str) -> (r: Result<Option<CivilDate>, XlsxError>)
    ensures
        match string_date_spec(s@) {
            Ok(o) => r == Ok::<Option<CivilDate>, XlsxError>(o),
            Err(u) => r == Err::<Option<CivilDate>, XlsxError>(XlsxError::TypeCoercionError),
        },
        r matches Ok(Some(cd)) ==> cd.valid(),
{
    match parse_date_text(s, '-') {
        Some(cd) => Ok(Some(cd)),
        None => {
            match parse_date_text(s, '/') {
                Some(cd) => Ok(Some(cd)),
                None => {
                    if is_null_text(s) {
                        Ok(None)
                    } else {
                        Err(XlsxError::TypeCoercionError)
                    }
                },
            }
        },
    }
}

/// What reading a cell as a date returns: day-serials and numbers take
/// their whole part from the 1899-12-30 epoch; text is parsed.
pub open spec fn cell_date_spec(v: CellValue) -> Result<Option<CivilDate>, ()> {
    match v {
        CellValue::Blank => Ok(None),
        CellValue::Bool(b) => Err(()),
        CellValue::Number(s) => if number_ok(s@) {
            serial_date_spec(serial_of_text(s@))
        } else {
            Err(())
        },
        CellValue::Date(se) => serial_date_spec(se),
        CellValue::Time(se) => serial_date_spec(se),
        CellValue::Datetime(se) => serial_date_spec(se),
        CellValue::Shared(s) => string_date_spec(s@),
        CellValue::String(s) => string_date_spec(s@),
        CellValue::Error(s) => Err(()),
    }
}

/// The date of a serial's whole part, when representable.
pub open spec fn serial_date_spec(se: Serial) -> Result<Option<CivilDate>, ()> {
    if se.wf() && MIN_UNIX_DAY <= serial_unix_day(se) <= MAX_UNIX_DAY {
        Ok(Some(date_of_unix(serial_unix_day(se))))
    } else {
        Err(())
    }
}

/// Read a cell as a calendar date, per [`cell_date_spec`].
pub fn cell_to_date(v: &CellValue) -> (r: Result<Option<CivilDate>, XlsxError>)
    ensures
        match cell_date_spec(*v) {
            Ok(o) => r == Ok::<Option<CivilDate>, XlsxError>(o),
            Err(u) => r == Err::<Option<CivilDate>, XlsxError>(XlsxError::TypeCoercionError),
        },
{
    match v {
        CellValue::Blank => Ok(None),
        CellValue::Bool(b) => Err(XlsxError::TypeCoercionError),
        CellValue::Number(s) => {
            match parse_serial(s.as_str()) {
                Some(sr) => {
                    proof {
                        lemma_serial_of_text(s@, sr);
                    }
                    serial_to_date(&sr)
                },
                None => Err(XlsxError::TypeCoercionError),
            }
        },
        CellValue::Date(se) => serial_to_date(se),
        CellValue::Time(se) => serial_to_date(se),
        CellValue::Datetime(se) => serial_to_date(se),
        CellValue::Shared(s) => string_to_date(s.as_str()),
        CellValue::String(s) => string_to_date(s.as_str()),
        CellValue::Error(s) => Err(XlsxError::TypeCoercionError),
    }
}

fn serial_to_date(se: &Serial) -> (r: Result<Option<CivilDate>, XlsxError>)
    ensures
        match serial_date_spec(*se) {
            Ok(o) => r == Ok::<Option<CivilDate>, XlsxError>(o),
            Err(u) => r == Err::<Option<CivilDate>, XlsxError>(XlsxError::TypeCoercionError),
        },
{
    match date_of_serial(se) {
        Some(cd) => Ok(Some(cd)),
        None => Err(XlsxError::TypeCoercionError),
    }
}

// --------------------------------------------------- the time request

/// What reading text as a clock time returns.
pub open spec fn string_time_spec(s: Seq<char>) -> Result<Option<ClockTime>, ()> {
    if valid_time_text(s) {
        Ok(Some(text_time(s)))
    } else if null_text(s) {
        Ok(None)
    } else {
        Err(())
    }
}

fn string_to_time(s: &str) -> (r: Result<Option<ClockTime>, XlsxError>)
    ensures
        match string_time_spec(s@) {
            Ok(o) => r == Ok::<Option<ClockTime>, XlsxError>(o),
            Err(u) => r == Err::<Option<ClockTime>, XlsxError>(XlsxError::TypeCoercionError),
        },
        r matches Ok(Some(t)) ==> t.valid(),
{
    match parse_time_text(s) {
        Some(t) => Ok(Some(t)),
        None => {
            if is_null_text(s) {
                Ok(None)
            } else {
                Err(XlsxError::TypeCoercionError)
            }
        },
    }
}

/// The clock time of a serial's fraction, read unsigned.
pub open spec fn serial_time_spec(se: Serial) -> Result<Option<ClockTime>, ()> {
    if se.wf() {
        Ok(Some(clock_of_secs(frac_secs_unsigned(se))))
    } else {
        Err(())
    }
}

/// What reading a cell as a clock time returns.
pub open spec fn cell_time_spec(v: CellValue) -> Result<Option<ClockTime>, ()> {
    match v {
        CellValue::Blank => Ok(None),
        CellValue::Bool(b) => Err(()),
        CellValue::Number(s) => if number_ok(s@) {
            serial_time_spec(serial_of_text(s@))
        } else {
            Err(())
        },
        CellValue::Date(se) => serial_time_spec(se),
        CellValue::Time(se) => serial_time_spec(se),
        CellValue::Datetime(se) => serial_time_spec(se),
        CellValue::Shared(s) => string_time_spec(s@),
        CellValue::String(s) => string_time_spec(s@),
        CellValue::Error(s) => Err(()),
    }
}

/// Read a cell as a time of day, per [`cell_time_spec`].
pub fn cell_to_time(v: &CellValue) -> (r: Result<Option<ClockTime>, XlsxError>)
    ensures
        match cell_time_spec(*v) {
            Ok(o) => r == Ok::<Option<ClockTime>, XlsxError>(o),
            Err(u) => r == Err::<Option<ClockTime>, XlsxError>(XlsxError::TypeCoercionError),
        },
{
    match v {
        CellValue::Blank => Ok(None),
        CellValue::Bool(b) => Err(XlsxError::TypeCoercionError),
        CellValue::Number(s) => {
            match parse_serial(s.as_str()) {
                Some(sr) => {
                    proof {
                        lemma_serial_of_text(s@, sr);
                    }
                    serial_to_time(&sr)
                },
                None => Err(XlsxError::TypeCoercionError),
            }
        },
        CellValue::Date(se) => serial_to_time(se),
        CellValue::Time(se) => serial_to_time(se),
        CellValue::Datetime(se) => serial_to_time(se),
        CellValue::Shared(s) => string_to_time(s.as_str()),
        CellValue::String(s) => string_to_time(s.as_str()),
        CellValue::Error(s) => Err(XlsxError::TypeCoercionError),
    }
}

fn serial_to_time(se: &Serial) -> (r: Result<Option<ClockTime>, XlsxError>)
    ensures
        match serial_time_spec(*se) {
            Ok(o) => r == Ok::<Option<ClockTime>, XlsxError>(o),
            Err(u) => r == Err::<Option<ClockTime>, XlsxError>(XlsxError::TypeCoercionError),
        },
{
    match clock_of_serial_unsigned(se) {
        Some(t) => Ok(Some(t)),
        None => Err(XlsxError::TypeCoercionError),
    }
}

// ----------------------------------------------- the datetime request

/// What reading text as a date and time returns.
pub open spec fn string_datetime_spec(s: Seq<char>) -> Result<Option<CivilDateTime>, ()> {
    if valid_datetime_text(s, '-') {
        Ok(Some(text_datetime(s, '-')))
    } else if valid_datetime_text(s, '/') {
        Ok(Some(text_datetime(s, '/')))
    } else if null_text(s) {
        Ok(None)
    } else {
        Err(())
    }
}

fn string_to_datetime(s: &str) -> (r: Result<Option<CivilDateTime>, XlsxError>)
    ensures
        match string_datetime_spec(s@) {
            Ok(o) => r == Ok::<Option<CivilDateTime>, XlsxError>(o),
            Err(u) => r == Err::<Option<CivilDateTime>, XlsxError>(XlsxError::TypeCoercionError),
        },
        r matches Ok(Some(dt)) ==> dt.valid(),
{
    match parse_datetime_text(s, '-') {
        Some(dt) => Ok(Some(dt)),
        None => {
            match parse_datetime_text(s, '/') {
                Some(dt) => Ok(Some(dt)),
                None => {
                    if is_null_text(s) {
                        Ok(None)
                    } else {
                        Err(XlsxError::TypeCoercionError)
                    }
                },
            }
        },
    }
}

/// The date and time of a serial read as a moment.
pub open spec fn serial_datetime_spec(se: Serial) -> Result<Option<CivilDateTime>, ()> {
    let m = serial_moment_secs(se);
    if se.wf() && MIN_UNIX_DAY <= m / 86400 <= MAX_UNIX_DAY {
        Ok(Some(CivilDateTime { date: date_of_unix(m / 86400), time: clock_of_secs(m % 86400) }))
    } else {
        Err(())
    }
}

/// What reading a cell as a date and time returns.
pub open spec fn cell_datetime_spec(v: CellValue) -> Result<Option<CivilDateTime>, ()> {
    match v {
        CellValue::Blank => Ok(None),
        CellValue::Bool(b) => Err(()),
        CellValue::Number(s) => if number_ok(s@) {
            serial_datetime_spec(serial_of_text(s@))
        } else {
            Err(())
        },
        CellValue::Date(se) => serial_datetime_spec(se),
        CellValue::Time(se) => serial_datetime_spec(se),
        CellValue::Datetime(se) => serial_datetime_spec(se),
        CellValue::Shared(s) => string_datetime_spec(s@),
        CellValue::String(s) => string_datetime_spec(s@),
        CellValue::Error(s) => Err(()),
    }
}

/// Read a cell as a date and time, per [`cell_datetime_spec`].
pub fn cell_to_datetime(v: &CellValue) -> (r: Result<Option<CivilDateTime>, XlsxError>)
    ensures
        match cell_datetime_spec(*v) {
            Ok(o) => r == Ok::<Option<CivilDateTime>, XlsxError>(o),
            Err(u) => r == Err::<Option<CivilDateTime>, XlsxError>(XlsxError::TypeCoercionError),
        },
{
    match v {
        CellValue::Blank => Ok(None),
        CellValue::Bool(b) => Err(XlsxError::TypeCoercionError),
        CellValue::Number(s) => {
            match parse_serial(s.as_str()) {
                Some(sr) => {
                    proof {
                        lemma_serial_of_text(s@, sr);
                    }
                    serial_to_datetime(&sr)
                },
                None => Err(XlsxError::TypeCoercionError),
            }
        },
        CellValue::Date(se) => serial_to_datetime(se),
        CellValue::Time(se) => serial_to_datetime(se),
        CellValue::Datetime(se) => serial_to_datetime(se),
        CellValue::Shared(s) => string_to_datetime(s.as_str()),
        CellValue::String(s) => string_to_datetime(s.as_str()),
        CellValue::Error(s) => Err(XlsxError::TypeCoercionError),
    }
}

fn serial_to_datetime(se: &Serial) -> (r: Result<Option<CivilDateTime>, XlsxError>)
    ensures
        match serial_datetime_spec(*se) {
            Ok(o) => r == Ok::<Option<CivilDateTime>, XlsxError>(o),
            Err(u) => r == Err::<Option<CivilDateTime>, XlsxError>(XlsxError::TypeCoercionError),
        },
{
    match datetime_of_serial(se) {
        Some(dt) => Ok(Some(dt)),
        None => Err(XlsxError::TypeCoercionError),
    }
}

// --------------------------------------------------- the Date32 request

/// The serial's whole part shifted to days since the Unix epoch, when it
/// fits an `i32`.
pub open spec fn serial_date32_spec(se: Serial) -> Result<Option<i32>, ()> {
    let d0 = serial_unix_day(se);
    if se.wf() && i32::MIN <= d0 <= i32::MAX {
        Ok(Some(d0 as i32))
    } else {
        Err(())
    }
}

/// What reading a cell as a day-epoch integer returns.
pub open spec fn cell_date32_spec(v: CellValue) -> Result<Option<i32>, ()> {
    match v {
        CellValue::Blank => Ok(None),
        CellValue::Bool(b) => Err(()),
        CellValue::Number(s) => if valid_i64_text(s@) {
            if i32::MIN <= i64_text_val(s@) - 25569 <= i32::MAX {
                Ok(Some((i64_text_val(s@) - 25569) as i32))
            } else {
                Err(())
            }
        } else if number_ok(s@) {
            serial_date32_spec(serial_of_text(s@))
        } else {
            Err(())
        },
        CellValue::Date(se) => serial_date32_spec(se),
        CellValue::Time(se) => serial_date32_spec(se),
        CellValue::Datetime(se) => serial_date32_spec(se),
        CellValue::Shared(s) => string_date32_spec(s@),
        CellValue::String(s) => string_date32_spec(s@),
        CellValue::Error(s) => Err(()),
    }
}

/// What reading text as a day-epoch integer returns: the parsed date's
/// day count.
pub open spec fn string_date32_spec(s: Seq<char>) -> Result<Option<i32>, ()> {
    match string_date_spec(s) {
        Ok(o) => match o {
            Some(cd) => Ok(Some(cd.unix_days() as i32)),
            None => Ok(None),
        },
        Err(u) => Err(()),
    }
}

/// Read a cell as days since the Unix epoch, per [`cell_date32_spec`].
pub fn cell_to_date32(v: &CellValue) -> (r: Result<Option<i32>, XlsxError>)
    ensures
        match cell_date32_spec(*v) {
            Ok(o) => r == Ok::<Option<i32>, XlsxError>(o),
            Err(u) => r == Err::<Option<i32>, XlsxError>(XlsxError::TypeCoercionError),
        },
{
    match v {
        CellValue::Blank => Ok(None),
        CellValue::Bool(b) => Err(XlsxError::TypeCoercionError),
        CellValue::Number(s) => {
            match parse_i64_text(s.as_str()) {
                Some(v) => {
                    proof {
                        lemma_i64_text_val_fits(s@);
                    }
                    let d0: i128 = v as i128 - 25569;
                    if d0 < i32::MIN as i128 || d0 > i32::MAX as i128 {
                        Err(XlsxError::TypeCoercionError)
                    } else {
                        Ok(Some(d0 as i32))
                    }
                },
                None => {
                    match parse_serial(s.as_str()) {
                        Some(sr) => {
                            proof {
                                lemma_serial_of_text(s@, sr);
                            }
                            serial_to_date32(&sr)
                        },
                        None => Err(XlsxError::TypeCoercionError),
                    }
                },
            }
        },
        CellValue::Date(se) => serial_to_date32(se),
        CellValue::Time(se) => serial_to_date32(se),
        CellValue::Datetime(se) => serial_to_date32(se),
        CellValue::Shared(s) => string_to_date32(s.as_str()),
        CellValue::String(s) => string_to_date32(s.as_str()),
        CellValue::Error(s) => Err(XlsxError::TypeCoercionError),
    }
}

fn serial_to_date32(se: &Serial) -> (r: Result<Option<i32>, XlsxError>)
    ensures
        match serial_date32_spec(*se) {
            Ok(o) => r == Ok::<Option<i32>, XlsxError>(o),
            Err(u) => r == Err::<Option<i32>, XlsxError>(XlsxError::TypeCoercionError),
        },
{
    if se.days > SERIAL_DAYS_MAX || se.millis >= crate::serial::DAY_MILLIS {
        return Err(XlsxError::TypeCoercionError);
    }
    let t = se.days as i64;
    let d0 = if se.neg {
        -t - 25569
    } else {
        t - 25569
    };
    if d0 < i32::MIN as i64 || d0 > i32::MAX as i64 {
        return Err(XlsxError::TypeCoercionError);
    }
    Ok(Some(d0 as i32))
}

fn string_to_date32(s: &str) -> (r: Result<Option<i32>, XlsxError>)
    ensures
        match string_date32_spec(s@) {
            Ok(o) => r == Ok::<Option<i32>, XlsxError>(o),
            Err(u) => r == Err::<Option<i32>, XlsxError>(XlsxError::TypeCoercionError),
        },
{
    match string_to_date(s) {
        Ok(Some(cd)) => {
            let d = crate::dates::days_from_civil(&cd);
            Ok(Some(d as i32))
        },
        Ok(None) => Ok(None),
        Err(e) => Err(e),
    }
}

// ------------------------------------------------ the Timestamp request

/// What reading text as a timestamp returns: the parsed datetime's
/// seconds since the Unix epoch.
pub open spec fn string_timestamp_spec(s: Seq<char>) -> Result<Option<int>, ()> {
    match string_datetime_spec(s) {
        Ok(o) => match o {
            Some(dt) => Ok(Some(dt.unix_seconds())),
            None => Ok(None),
        },
        Err(u) => Err(()),
    }
}

/// What reading a cell as a timestamp returns: numeric cells scale the
/// serial by a day of seconds from the 1899-12-30 epoch, truncating
/// toward zero.
pub open spec fn cell_timestamp_spec(v: CellValue) -> Result<Option<int>, ()> {
    match v {
        CellValue::Blank => Ok(None),
        CellValue::Bool(b) => Err(()),
        CellValue::Number(s) => if valid_i64_text(s@) {
            if i64::MIN <= (i64_text_val(s@) - 25569) * 86400 <= i64::MAX {
                Ok(Some((i64_text_val(s@) - 25569) * 86400))
            } else {
                Err(())
            }
        } else if number_ok(s@) {
            if serial_of_text(s@).wf() {
                Ok(Some(excel_timestamp(serial_of_text(s@))))
            } else {
                Err(())
            }
        } else {
            Err(())
        },
        CellValue::Date(se) => if se.wf() {
            Ok(Some(excel_timestamp(se)))
        } else {
            Err(())
        },
        CellValue::Time(se) => if se.wf() {
            Ok(Some(excel_timestamp(se)))
        } else {
            Err(())
        },
        CellValue::Datetime(se) => if se.wf() {
            Ok(Some(excel_timestamp(se)))
        } else {
            Err(())
        },
        CellValue::Shared(s) => string_timestamp_spec(s@),
        CellValue::String(s) => string_timestamp_spec(s@),
        CellValue::Error(s) => Err(()),
    }
}

/// Read a cell as a timestamp, per [`cell_timestamp_spec`].
pub fn cell_to_timestamp(v: &CellValue) -> (r: Result<Option<Timestamp>, XlsxError>)
    ensures
        match cell_timestamp_spec(*v) {
            Ok(o) => r matches Ok(o2) && (match o {
                Some(x) => o2 matches Some(t) && t.spec_utc() == x,
                None => o2 is None,
            }),
            Err(u) => r matches Err(e) && e == XlsxError::TypeCoercionError,
        },
{
    match v {
        CellValue::Blank => Ok(None),
        CellValue::Bool(b) => Err(XlsxError::TypeCoercionError),
        CellValue::Number(s) => {
            match parse_i64_text(s.as_str()) {
                Some(v) => {
                    proof {
                        lemma_i64_text_val_fits(s@);
                    }
                    let t: i128 = (v as i128 - 25569) * 86400;
                    if t < i64::MIN as i128 || t > i64::MAX as i128 {
                        Err(XlsxError::TypeCoercionError)
                    } else {
                        Ok(Some(Timestamp::from(t as i64)))
                    }
                },
                None => {
                    match parse_serial(s.as_str()) {
                        Some(sr) => {
                            proof {
                                lemma_serial_of_text(s@, sr);
                            }
                            serial_to_timestamp(&sr)
                        },
                        None => Err(XlsxError::TypeCoercionError),
                    }
                },
            }
        },
        CellValue::Date(se) => serial_to_timestamp(se),
        CellValue::Time(se) => serial_to_timestamp(se),
        CellValue::Datetime(se) => serial_to_timestamp(se),
        CellValue::Shared(s) => string_to_timestamp(s.as_str()),
        CellValue::String(s) => string_to_timestamp(s.as_str()),
        CellValue::Error(s) => Err(XlsxError::TypeCoercionError),
    }
}

fn serial_to_timestamp(se: &Serial) -> (r: Result<Option<Timestamp>, XlsxError>)
    ensures
        se.wf() ==> (r matches Ok(o) && o matches Some(t) && t.spec_utc() == excel_timestamp(
            *se,
        )),
        !se.wf() ==> (r matches Err(e) && e == XlsxError::TypeCoercionError),
{
    if se.days > SERIAL_DAYS_MAX || se.millis >= crate::serial::DAY_MILLIS {
        return Err(XlsxError::TypeCoercionError);
    }
    let mag_ms: u64 = se.days * 86400000 + se.millis as u64;
    let (xneg, xmag) = sub_offset(se.neg, mag_ms, EXCEL_UNIX_OFFSET_MS);
    let ts_mag = xmag / 1000;
    let ts: i64 = if xneg {
        -(ts_mag as i64)
    } else {
        ts_mag as i64
    };
    proof {
        let vms = if se.neg {
            -(se.days as int * 86400000 + se.millis as int)
        } else {
            se.days as int * 86400000 + se.millis as int
        };
        let xms = vms - EXCEL_UNIX_OFFSET_MS;
        if xneg {
            assert(xms == -(xmag as int));
            if xms >= 0 {
                assert(xmag == 0);
                assert(excel_timestamp(*se) == 0);
            }
        } else {
            assert(xms == xmag as int);
        }
    }
    Ok(Some(Timestamp::from(ts)))
}

fn string_to_timestamp(s: &str) -> (r: Result<Option<Timestamp>, XlsxError>)
    ensures
        match string_timestamp_spec(s@) {
            Ok(o) => r matches Ok(o2) && (match o {
                Some(x) => o2 matches Some(t) && t.spec_utc() == x,
                None => o2 is None,
            }),
            Err(u) => r matches Err(e) && e == XlsxError::TypeCoercionError,
        },
{
    match string_to_datetime(s) {
        Ok(Some(dt)) => {
            let days = crate::dates::days_from_civil(&dt.date);
            let secs: i64 = days * 86400 + (dt.time.hour as i64 * 3600 + dt.time.minute as i64
                * 60 + dt.time.second as i64);
            Ok(Some(Timestamp::from(secs)))
        },
        Ok(None) => Ok(None),
        Err(e) => Err(e),
    }
}

// ----------------------------------------------- the Timesecond request

/// What reading text as seconds-of-day returns.
pub open spec fn string_timesecond_spec(s: Seq<char>) -> Result<Option<int>, ()> {
    match string_time_spec(s) {
        Ok(o) => match o {
            Some(t) => Ok(Some(t.day_seconds())),
            None => Ok(None),
        },
        Err(u) => Err(()),
    }
}

/// What reading a cell as seconds-of-day returns: the serial's fraction
/// scaled to seconds, signed.
pub open spec fn cell_timesecond_spec(v: CellValue) -> Result<Option<int>, ()> {
    match v {
        CellValue::Blank => Ok(None),
        CellValue::Bool(b) => Err(()),
        CellValue::Number(s) => if valid_i64_text(s@) {
            Ok(Some(0int))
        } else if number_ok(s@) {
            Ok(Some(frac_secs_signed(serial_of_text(s@))))
        } else {
            Err(())
        },
        CellValue::Date(se) => if se.wf() {
            Ok(Some(frac_secs_signed(se)))
        } else {
            Err(())
        },
        CellValue::Time(se) => if se.wf() {
            Ok(Some(frac_secs_signed(se)))
        } else {
            Err(())
        },
        CellValue::Datetime(se) => if se.wf() {
            Ok(Some(frac_secs_signed(se)))
        } else {
            Err(())
        },
        CellValue::Shared(s) => string_timesecond_spec(s@),
        CellValue::String(s) => string_timesecond_spec(s@),
        CellValue::Error(s) => Err(()),
    }
}

/// Read a cell as seconds since midnight, per [`cell_timesecond_spec`].
pub fn cell_to_timesecond(v: &CellValue) -> (r: Result<Option<Timesecond>, XlsxError>)
    ensures
        match cell_timesecond_spec(*v) {
            Ok(o) => r matches Ok(o2) && (match o {
                Some(x) => o2 matches Some(t) && t.spec_secs() == x,
                None => o2 is None,
            }),
            Err(u) => r matches Err(e) && e == XlsxError::TypeCoercionError,
        },
{
    match v {
        CellValue::Blank => Ok(None),
        CellValue::Bool(b) => Err(XlsxError::TypeCoercionError),
        CellValue::Number(s) => {
            match parse_i64_text(s.as_str()) {
                Some(v) => Ok(Some(Timesecond::from(0))),
                None => {
                    match parse_serial(s.as_str()) {
                        Some(sr) => {
                            proof {
                                lemma_serial_of_text(s@, sr);
                            }
                            serial_to_timesecond(&sr)
                        },
                        None => Err(XlsxError::TypeCoercionError),
                    }
                },
            }
        },
        CellValue::Date(se) => serial_to_timesecond(se),
        CellValue::Time(se) => serial_to_timesecond(se),
        CellValue::Datetime(se) => serial_to_timesecond(se),
        CellValue::Shared(s) => string_to_timesecond(s.as_str()),
        CellValue::String(s) => string_to_timesecond(s.as_str()),
        CellValue::Error(s) => Err(XlsxError::TypeCoercionError),
    }
}

fn serial_to_timesecond(se: &Serial) -> (r: Result<Option<Timesecond>, XlsxError>)
    ensures
        se.wf() ==> (r matches Ok(o) && o matches Some(t) && t.spec_secs() == frac_secs_signed(
            *se,
        )),
        !se.wf() ==> (r matches Err(e) && e == XlsxError::TypeCoercionError),
{
    if se.days > SERIAL_DAYS_MAX || se.millis >= crate::serial::DAY_MILLIS {
        return Err(XlsxError::TypeCoercionError);
    }
    let secs = (se.millis / 1000) as i32;
    let v: i32 = if se.neg {
        -secs
    } else {
        secs
    };
    Ok(Some(Timesecond::from(v)))
}

fn string_to_timesecond(s: &str) -> (r: Result<Option<Timesecond>, XlsxError>)
    ensures
        match string_timesecond_spec(s@) {
            Ok(o) => r matches Ok(o2) && (match o {
                Some(x) => o2 matches Some(t) && t.spec_secs() == x,
                None => o2 is None,
            }),
            Err(u) => r matches Err(e) && e == XlsxError::TypeCoercionError,
        },
{
    match string_to_time(s) {
        Ok(Some(t)) => {
            let v: i32 = t.hour as i32 * 3600 + t.minute as i32 * 60 + t.second as i32;
            Ok(Some(Timesecond::from(v)))
        },
        Ok(None) => Ok(None),
        Err(e) => Err(e),
    }
}

// -------------------------------------------------- writing typed values

/// The serial with the given whole day count and no fraction.
pub open spec fn serial_from_days(d0: int) -> Serial {
    if d0 >= 0 {
        Serial { neg: false, days: d0 as u64, millis: 0 }
    } else {
        Serial { neg: true, days: (-d0) as u64, millis: 0 }
    }
}

/// The serial denoting the given second count from the 1899-12-30 epoch.
pub open spec fn serial_from_secs(t: int) -> Serial {
    if t >= 0 {
        Serial { neg: false, days: (t / 86400) as u64, millis: ((t % 86400) * 1000) as u32 }
    } else {
        Serial { neg: true, days: ((-t) / 86400) as u64, millis: (((-t) % 86400) * 1000) as u32 }
    }
}

/// Build the serial for a signed second count from the 1899-12-30 epoch.
fn make_serial_from_secs(neg: bool, mag: u64) -> (r: Serial)
    requires
        mag <= 9000000000000000000,
    ensures
        ({
            let t = if neg {
                -(mag as int)
            } else {
                mag as int
            };
            r == serial_from_secs(t) && (mag <= crate::serial::SERIAL_DAYS_MAX * 86400 + 86399
                ==> r.wf())
        }),
{
    let days = mag / 86400;
    let millis = ((mag % 86400) as u32) * 1000;
    if !neg || mag == 0 {
        Serial { neg: false, days, millis }
    } else {
        Serial { neg: true, days, millis }
    }
}

impl IntoCellValue for CivilDate {
    /// A date becomes a `Date` cell: its whole-day serial from the
    /// 1899-12-30 epoch.  An out-of-range date is a coercion error.
    fn try_into_cval(self) -> (r: Result<CellValue, XlsxError>)
        ensures
            self.valid() ==> r == Ok::<CellValue, XlsxError>(
                CellValue::Date(serial_from_days(self.unix_days() + 25569)),
            ),
            !self.valid() ==> r == Err::<CellValue, XlsxError>(XlsxError::TypeCoercionError),
    {
        if self.year < 1 || self.year > 9999 || self.month < 1 || self.month > 12 || self.day < 1
            || self.day > crate::dates::month_length(self.year, self.month) {
            return Err(XlsxError::TypeCoercionError);
        }
        let d = crate::dates::days_from_civil(&self);
        let d0 = d + 25569;
        if d0 >= 0 {
            Ok(CellValue::Date(Serial { neg: false, days: d0 as u64, millis: 0 }))
        } else {
            Ok(CellValue::Date(Serial { neg: true, days: (-d0) as u64, millis: 0 }))
        }
    }
}

impl IntoCellValue for CivilDateTime {
    /// A date and time becomes a `Datetime` cell: days plus the fraction
    /// of the day, from the 1899-12-30 epoch.
    fn try_into_cval(self) -> (r: Result<CellValue, XlsxError>)
        ensures
            self.valid() ==> r == Ok::<CellValue, XlsxError>(
                CellValue::Datetime(
                    serial_from_secs((self.date.unix_days() + 25569) * 86400 + self.time.day_seconds()),
                ),
            ),
            !self.valid() ==> r == Err::<CellValue, XlsxError>(XlsxError::TypeCoercionError),
    {
        if self.date.year < 1 || self.date.year > 9999 || self.date.month < 1 || self.date.month
            > 12 || self.date.day < 1 || self.date.day > crate::dates::month_length(
            self.date.year,
            self.date.month,
        ) || self.time.hour >= 24 || self.time.minute >= 60 || self.time.second >= 60 {
            return Err(XlsxError::TypeCoercionError);
        }
        let d = crate::dates::days_from_civil(&self.date);
        let d0 = d + 25569;
        let secs: i64 = self.time.hour as i64 * 3600 + self.time.minute as i64 * 60
            + self.time.second as i64;
        let tot = d0 * 86400 + secs;
        let se = if tot >= 0 {
            make_serial_from_secs(false, tot as u64)
        } else {
            make_serial_from_secs(true, (-tot) as u64)
        };
        Ok(CellValue::Datetime(se))
    }
}

impl IntoCellValue for ClockTime {
    /// A clock time becomes a `Time` cell: the fraction of the day.
    fn try_into_cval(self) -> (r: Result<CellValue, XlsxError>)
        ensures
            self.valid() ==> r == Ok::<CellValue, XlsxError>(
                CellValue::Time(
                    Serial { neg: false, days: 0, millis: (self.day_seconds() * 1000) as u32 },
                ),
            ),
            !self.valid() ==> r == Err::<CellValue, XlsxError>(XlsxError::TypeCoercionError),
    {
        if self.hour >= 24 || self.minute >= 60 || self.second >= 60 {
            return Err(XlsxError::TypeCoercionError);
        }
        let secs: u32 = self.hour as u32 * 3600 + self.minute as u32 * 60 + self.second as u32;
        Ok(CellValue::Time(Serial { neg: false, days: 0, millis: secs * 1000 }))
    }
}

impl IntoCellValue for Date32 {
    /// A day-epoch integer becomes a `Date` cell shifted to the
    /// 1899-12-30 epoch.
    fn try_into_cval(self) -> (r: Result<CellValue, XlsxError>)
        ensures
            r == Ok::<CellValue, XlsxError>(CellValue::Date(serial_from_days(self + 25569))),
    {
        let d0: i64 = self as i64 + 25569;
        if d0 >= 0 {
            Ok(CellValue::Date(Serial { neg: false, days: d0 as u64, millis: 0 }))
        } else {
            Ok(CellValue::Date(Serial { neg: true, days: (-d0) as u64, millis: 0 }))
        }
    }
}

impl IntoCellValue for Timestamp {
    /// A timestamp becomes a `Datetime` cell; a count too far from the
    /// epoch to represent becomes an `Error` cell instead.
    fn try_into_cval(self) -> (r: Result<CellValue, XlsxError>)
        ensures
            ({
                let tot = self.spec_utc() + EXCEL_UNIX_OFFSET_SECS;
                let bound = crate::serial::SERIAL_DAYS_MAX * 86400 + 86399;
                if -bound <= tot <= bound {
                    r matches Ok(cv) && cv == CellValue::Datetime(serial_from_secs(tot))
                } else {
                    r matches Ok(cv) && cv matches CellValue::Error(m) && m@
                        == "invalid timestamp"@
                }
            }),
    {
        let utc = self.utc();
        if utc < -8640002209247999 || utc > 8639997790924799 {
            return Ok(CellValue::Error(String::from_str("invalid timestamp")));
        }
        let tot: i64 = utc + EXCEL_UNIX_OFFSET_SECS as i64;
        let se = if tot >= 0 {
            make_serial_from_secs(false, tot as u64)
        } else {
            make_serial_from_secs(true, (-tot) as u64)
        };
        Ok(CellValue::Datetime(se))
    }
}

impl IntoCellValue for Timesecond {
    /// A second-of-day count becomes a `Time` cell: the fraction of the
    /// day it denotes.
    fn try_into_cval(self) -> (r: Result<CellValue, XlsxError>)
        ensures
            r == Ok::<CellValue, XlsxError>(
                CellValue::Time(serial_from_secs(self.spec_secs() as int)),
            ),
    {
        let v = self.secs();
        let se = if v >= 0 {
            make_serial_from_secs(false, v as u64)
        } else {
            make_serial_from_secs(true, (-(v as i64)) as u64)
        };
        Ok(CellValue::Time(se))
    }
}

// --------------------------------------------------- the request table

impl FromCellValue for String {
    open spec fn from_cval_ok(v: CellValue, r: Option<String>) -> bool {
        match cell_string_spec(v) {
            Ok(t) => r matches Some(s) && s@ == t,
            Err(u) => false,
        }
    }

    open spec fn from_cval_err(v: CellValue) -> bool {
        cell_string_spec(v) is Err
    }

    fn try_from_cval(val: &CellValue) -> Result<Option<String>, XlsxError> {
        cell_to_string(val)
    }
}

impl FromCellValue for i64 {
    open spec fn from_cval_ok(v: CellValue, r: Option<i64>) -> bool {
        cell_i64_spec(v) == Ok::<Option<i64>, ()>(r)
    }

    open spec fn from_cval_err(v: CellValue) -> bool {
        cell_i64_spec(v) is Err
    }

    fn try_from_cval(val: &CellValue) -> Result<Option<i64>, XlsxError> {
        cell_to_i64(val)
    }
}

impl FromCellValue for bool {
    open spec fn from_cval_ok(v: CellValue, r: Option<bool>) -> bool {
        cell_bool_spec(v) == Ok::<Option<bool>, ()>(r)
    }

    open spec fn from_cval_err(v: CellValue) -> bool {
        cell_bool_spec(v) is Err
    }

    fn try_from_cval(val: &CellValue) -> Result<Option<bool>, XlsxError> {
        cell_to_bool(val)
    }
}

impl FromCellValue for CivilDate {
    open spec fn from_cval_ok(v: CellValue, r: Option<CivilDate>) -> bool {
        cell_date_spec(v) == Ok::<Option<CivilDate>, ()>(r)
    }

    open spec fn from_cval_err(v: CellValue) -> bool {
        cell_date_spec(v) is Err
    }

    fn try_from_cval(val: &CellValue) -> Result<Option<CivilDate>, XlsxError> {
        cell_to_date(val)
    }
}

impl FromCellValue for CivilDateTime {
    open spec fn from_cval_ok(v: CellValue, r: Option<CivilDateTime>) -> bool {
        cell_datetime_spec(v) == Ok::<Option<CivilDateTime>, ()>(r)
    }

    open spec fn from_cval_err(v: CellValue) -> bool {
        cell_datetime_spec(v) is Err
    }

    fn try_from_cval(val: &CellValue) -> Result<Option<CivilDateTime>, XlsxError> {
        cell_to_datetime(val)
    }
}

impl FromCellValue for ClockTime {
    open spec fn from_cval_ok(v: CellValue, r: Option<ClockTime>) -> bool {
        cell_time_spec(v) == Ok::<Option<ClockTime>, ()>(r)
    }

    open spec fn from_cval_err(v: CellValue) -> bool {
        cell_time_spec(v) is Err
    }

    fn try_from_cval(val: &CellValue) -> Result<Option<ClockTime>, XlsxError> {
        cell_to_time(val)
    }
}

impl FromCellValue for Date32 {
    open spec fn from_cval_ok(v: CellValue, r: Option<Date32>) -> bool {
        cell_date32_spec(v) == Ok::<Option<i32>, ()>(r)
    }

    open spec fn from_cval_err(v: CellValue) -> bool {
        cell_date32_spec(v) is Err
    }

    fn try_from_cval(val: &CellValue) -> Result<Option<Date32>, XlsxError> {
        cell_to_date32(val)
    }
}

impl FromCellValue for Timestamp {
    open spec fn from_cval_ok(v: CellValue, r: Option<Timestamp>) -> bool {
        match cell_timestamp_spec(v) {
            Ok(o) => match o {
                Some(x) => r matches Some(t) && t.spec_utc() == x,
                None => r is None,
            },
            Err(u) => false,
        }
    }

    open spec fn from_cval_err(v: CellValue) -> bool {
        cell_timestamp_spec(v) is Err
    }

    fn try_from_cval(val: &CellValue) -> Result<Option<Timestamp>, XlsxError> {
        cell_to_timestamp(val)
    }
}

impl FromCellValue for Timesecond {
    open spec fn from_cval_ok(v: CellValue, r: Option<Timesecond>) -> bool {
        match cell_timesecond_spec(v) {
            Ok(o) => match o {
                Some(x) => r matches Some(t) && t.spec_secs() == x,
                None => r is None,
            },
            Err(u) => false,
        }
    }

    open spec fn from_cval_err(v: CellValue) -> bool {
        cell_timesecond_spec(v) is Err
    }

    fn try_from_cval(val: &CellValue) -> Result<Option<Timesecond>, XlsxError> {
        cell_to_timesecond(val)
    }
}

} // verus!
