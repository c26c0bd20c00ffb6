//! Fixed-point reading of numeric cell text.  A spreadsheet serial is a
//! decimal day count; the library holds it exactly as a sign, a whole-day
//! count, and the fraction of the day scaled to milliseconds, rather than
//! as a floating-point number.  The accepted grammar is an optional sign,
//! digits with at most one decimal point, and an optional exponent
//! (`e`/`E`, optional sign, digits), read by exact decimal shifting.
use vstd::prelude::*;

use crate::text::{all_digits, digit_val, digits_val, is_digit, lemma_digits_val_prefix};

verus! {

/// The largest whole part a serial may carry; larger numeric text is
/// rejected rather than rounded.
pub const SERIAL_DAYS_MAX: u64 = 100000000000;

/// Milliseconds in a day.
pub const DAY_MILLIS: u32 = 86400000;

/// The largest accepted exponent magnitude; beyond it the text is not a
/// number here (a finite double never needs more).
pub const EXP_MAX: u64 = 100000;

/// A day-serial held exactly: `(-1 if neg) * (days + millis / 86400000)`.
#[derive(Debug, Clone, Copy, PartialEq, Eq, Structural)]
pub struct Serial {
    /// Whether the value is negative.
    pub neg: bool,
    /// The whole part, in days.
    pub days: u64,
    /// The fractional part, in milliseconds of the day.
    pub millis: u32,
}

impl Serial {
    /// Well-formedness: the whole part is bounded and the fraction is less
    /// than one day.
    pub open spec fn wf(&self) -> bool {
        self.days <= SERIAL_DAYS_MAX && self.millis < DAY_MILLIS
    }

    /// The serial truncated toward zero, as a day count.
    pub open spec fn trunc_val(&self) -> int {
        if self.neg {
            -(self.days as int)
        } else {
            self.days as int
        }
    }
}

// ------------------------------------------------------- the text grammar

/// Whether the text opens with an explicit sign.
pub open spec fn has_sign(s: Seq<char>) -> bool {
    s.len() > 0 && (s[0] == '-' || s[0] == '+')
}

/// Whether the text denotes a negative number.
pub open spec fn num_neg(s: Seq<char>) -> bool {
    s.len() > 0 && s[0] == '-'
}

/// The text with its sign, if any, removed.
pub open spec fn num_body(s: Seq<char>) -> Seq<char> {
    if has_sign(s) {
        s.skip(1)
    } else {
        s
    }
}

/// The index of the first `'.'`, or the length when there is none.
pub open spec fn dot_index(s: Seq<char>) -> int
    decreases s.len(),
{
    if s.len() == 0 {
        0
    } else if s[0] == '.' {
        0
    } else {
        1 + dot_index(s.skip(1))
    }
}

/// The index of the first exponent marker (`e` or `E`), or the length.
pub open spec fn exp_marker(s: Seq<char>) -> int
    decreases s.len(),
{
    if s.len() == 0 {
        0
    } else if s[0] == 'e' || s[0] == 'E' {
        0
    } else {
        1 + exp_marker(s.skip(1))
    }
}

/// The number's mantissa: the body before the exponent marker.
pub open spec fn mantissa(s: Seq<char>) -> Seq<char> {
    let b = num_body(s);
    b.take(exp_marker(b))
}

/// Whether the text carries an exponent marker.
pub open spec fn has_exp(s: Seq<char>) -> bool {
    exp_marker(num_body(s)) < num_body(s).len()
}

/// The text after the exponent marker, sign included.
pub open spec fn exp_text(s: Seq<char>) -> Seq<char> {
    let b = num_body(s);
    if exp_marker(b) < b.len() {
        b.skip(exp_marker(b) + 1)
    } else {
        Seq::empty()
    }
}

/// Whether the exponent is negative.
pub open spec fn exp_neg(s: Seq<char>) -> bool {
    exp_text(s).len() > 0 && exp_text(s)[0] == '-'
}

/// The exponent's digits, its sign removed.
pub open spec fn exp_digits(s: Seq<char>) -> Seq<char> {
    let t = exp_text(s);
    if t.len() > 0 && (t[0] == '-' || t[0] == '+') {
        t.skip(1)
    } else {
        t
    }
}

/// The signed exponent value; zero when there is no exponent.
pub open spec fn exp_val(s: Seq<char>) -> int {
    if !has_exp(s) {
        0
    } else if exp_neg(s) {
        -digits_val(exp_digits(s))
    } else {
        digits_val(exp_digits(s))
    }
}

/// The digits before the decimal point.
pub open spec fn int_part(s: Seq<char>) -> Seq<char> {
    mantissa(s).take(dot_index(mantissa(s)))
}

/// The digits after the decimal point; empty when there is no point.
pub open spec fn frac_part(s: Seq<char>) -> Seq<char> {
    let m = mantissa(s);
    if dot_index(m) < m.len() {
        m.skip(dot_index(m) + 1)
    } else {
        Seq::empty()
    }
}

/// All of the number's digits, the decimal point dropped.
pub open spec fn number_digits(s: Seq<char>) -> Seq<char> {
    int_part(s) + frac_part(s)
}

/// Where the decimal point sits within [`number_digits`] once the
/// exponent has shifted it.
pub open spec fn point_pos(s: Seq<char>) -> int {
    int_part(s).len() + exp_val(s)
}

/// Whether the text is a number: an optional sign, then digits with at
/// most one decimal point and at least one digit, then an optional
/// bounded exponent.
pub open spec fn valid_number(s: Seq<char>) -> bool {
    &&& all_digits(int_part(s))
    &&& all_digits(frac_part(s))
    &&& int_part(s).len() + frac_part(s).len() >= 1
    &&& (has_exp(s) ==> exp_digits(s).len() >= 1 && all_digits(exp_digits(s)) && digits_val(
        exp_digits(s),
    ) <= EXP_MAX)
}

/// Ten to the `k`.
pub open spec fn pow10(k: int) -> int
    decreases k,
{
    if k <= 0 {
        1
    } else {
        10 * pow10(k - 1)
    }
}

/// The digit at position `j` of the run, zero outside it.
pub open spec fn digit_at(d: Seq<char>, j: int) -> int {
    if 0 <= j < d.len() {
        digit_val(d[j])
    } else {
        0
    }
}

/// The value of the `k` digits starting at `from`, positions outside the
/// run reading as zero.
pub open spec fn window_val(d: Seq<char>, from: int, k: nat) -> int
    decreases k,
{
    if k == 0 {
        0
    } else {
        window_val(d, from, (k - 1) as nat) * 10 + digit_at(d, from + k - 1)
    }
}

/// The whole part of the number the text denotes: the digits left of the
/// shifted decimal point.
pub open spec fn serial_days_of(s: Seq<char>) -> int {
    if point_pos(s) <= 0 {
        0
    } else {
        window_val(number_digits(s), 0, point_pos(s) as nat)
    }
}

/// The fractional part of the number the text denotes: the nine digits
/// right of the shifted decimal point, scaled to milliseconds of a day
/// and truncated.
pub open spec fn serial_millis_of(s: Seq<char>) -> int {
    window_val(number_digits(s), point_pos(s), 9) * (DAY_MILLIS as int) / 1000000000
}

// --------------------------------------------------------------- lemmas

pub proof fn lemma_pow10_pos(k: int)
    ensures
        pow10(k) >= 1,
    decreases k,
{
    if k > 0 {
        lemma_pow10_pos(k - 1);
    }
}

/// Ten to the power is monotone in the exponent.
pub proof fn lemma_pow10_increases(a: int, b: int)
    requires
        a <= b,
    ensures
        pow10(a) <= pow10(b),
    decreases b - a,
{
    if a < b {
        if b <= 0 {
            assert(pow10(a) == 1 && pow10(b) == 1);
        } else {
            lemma_pow10_increases(a, b - 1);
            lemma_pow10_pos(b - 1);
            assert(pow10(b) == 10 * pow10(b - 1));
        }
    }
}

/// A digit run's value is below ten to its length.
pub proof fn lemma_digits_val_bound(s: Seq<char>)
    requires
        all_digits(s),
    ensures
        digits_val(s) < pow10(s.len() as int),
    decreases s.len(),
{
    if s.len() == 0 {
    } else {
        assert(all_digits(s.drop_last()));
        lemma_digits_val_bound(s.drop_last());
        assert(digit_val(s.last()) <= 9);
        assert(digits_val(s) == digits_val(s.drop_last()) * 10 + digit_val(s.last()));
        assert(pow10(s.len() as int) == 10 * pow10(s.len() - 1));
    }
}

/// A digit window's value is nonnegative and below ten to its width.
pub proof fn lemma_window_bound(d: Seq<char>, from: int, k: nat)
    requires
        all_digits(d),
    ensures
        0 <= window_val(d, from, k) < pow10(k as int),
    decreases k,
{
    if k == 0 {
    } else {
        lemma_window_bound(d, from, (k - 1) as nat);
        assert(0 <= digit_at(d, from + k - 1) <= 9);
        assert(pow10(k as int) == 10 * pow10(k - 1));
    }
}

/// A window's value only grows as it widens.
proof fn lemma_window_grows(d: Seq<char>, from: int, k: nat, k2: nat)
    requires
        all_digits(d),
        k <= k2,
    ensures
        window_val(d, from, k) <= window_val(d, from, k2),
    decreases k2 - k,
{
    if k < k2 {
        lemma_window_grows(d, from, k, (k2 - 1) as nat);
        lemma_window_bound(d, from, (k2 - 1) as nat);
        assert(0 <= digit_at(d, from + k2 - 1));
    }
}

/// Widening a window past the run's end multiplies by the padding power.
proof fn lemma_window_pad(d: Seq<char>, k: nat)
    requires
        k >= d.len(),
    ensures
        window_val(d, 0, k) == window_val(d, 0, d.len()) * pow10(k - d.len()),
    decreases k,
{
    if k == d.len() {
        assert(pow10(0) == 1);
    } else {
        lemma_window_pad(d, (k - 1) as nat);
        assert(digit_at(d, k - 1) == 0);
        assert(pow10(k - d.len()) == 10 * pow10(k - 1 - d.len()));
        assert(window_val(d, 0, d.len()) * pow10(k - 1 - d.len()) * 10 == window_val(
            d,
            0,
            d.len(),
        ) * (10 * pow10(k - 1 - d.len()))) by (nonlinear_arith);
    }
}

proof fn lemma_dot_index_range(s: Seq<char>)
    ensures
        0 <= dot_index(s) <= s.len(),
    decreases s.len(),
{
    if s.len() > 0 && s[0] != '.' {
        lemma_dot_index_range(s.skip(1));
    }
}

/// Where the first dot of `s` is known by scanning, `dot_index` agrees.
proof fn lemma_dot_index_at(s: Seq<char>, i: int)
    requires
        0 <= i <= s.len(),
        forall|j: int| 0 <= j < i ==> s[j] != '.',
        i == s.len() || s[i] == '.',
    ensures
        dot_index(s) == i,
    decreases s.len(),
{
    if s.len() == 0 {
    } else if s[0] == '.' {
        assert(i == 0);
    } else {
        assert(i >= 1);
        let t = s.skip(1);
        assert(forall|j: int| 0 <= j < i - 1 ==> #[trigger] t[j] == s[j + 1] && t[j] != '.');
        assert(i - 1 == t.len() || t[i - 1] == '.');
        lemma_dot_index_at(t, i - 1);
    }
}

/// A scanned dot-free prefix pushes the first dot at least that far out.
proof fn lemma_dot_index_min(s: Seq<char>, k: int)
    requires
        0 <= k <= s.len(),
        forall|j: int| 0 <= j < k ==> s[j] != '.',
    ensures
        dot_index(s) >= k,
    decreases s.len(),
{
    if k > 0 {
        let t = s.skip(1);
        assert(forall|j: int| 0 <= j < k - 1 ==> #[trigger] t[j] == s[j + 1] && t[j] != '.');
        lemma_dot_index_min(t, k - 1);
    } else {
        lemma_dot_index_range(s);
    }
}

proof fn lemma_exp_marker_range(s: Seq<char>)
    ensures
        0 <= exp_marker(s) <= s.len(),
    decreases s.len(),
{
    if s.len() > 0 && s[0] != 'e' && s[0] != 'E' {
        lemma_exp_marker_range(s.skip(1));
    }
}

/// Where the first marker of `s` is known by scanning, `exp_marker`
/// agrees.
proof fn lemma_exp_marker_at(s: Seq<char>, i: int)
    requires
        0 <= i <= s.len(),
        forall|j: int| 0 <= j < i ==> s[j] != 'e' && s[j] != 'E',
        i == s.len() || s[i] == 'e' || s[i] == 'E',
    ensures
        exp_marker(s) == i,
    decreases s.len(),
{
    if s.len() == 0 {
    } else if s[0] == 'e' || s[0] == 'E' {
        assert(i == 0);
    } else {
        assert(i >= 1);
        let t = s.skip(1);
        assert(forall|j: int|
            0 <= j < i - 1 ==> #[trigger] t[j] == s[j + 1] && t[j] != 'e' && t[j] != 'E');
        assert(i - 1 == t.len() || t[i - 1] == 'e' || t[i - 1] == 'E');
        lemma_exp_marker_at(t, i - 1);
    }
}

/// A scanned marker-free prefix pushes the first marker at least that far
/// out.
proof fn lemma_exp_marker_min(s: Seq<char>, k: int)
    requires
        0 <= k <= s.len(),
        forall|j: int| 0 <= j < k ==> s[j] != 'e' && s[j] != 'E',
    ensures
        exp_marker(s) >= k,
    decreases s.len(),
{
    if k > 0 {
        let t = s.skip(1);
        assert(forall|j: int|
            0 <= j < k - 1 ==> #[trigger] t[j] == s[j + 1] && t[j] != 'e' && t[j] != 'E');
        lemma_exp_marker_min(t, k - 1);
    } else {
        lemma_exp_marker_range(s);
    }
}

/// A number's digits are all digits.
pub proof fn lemma_number_digits_all(s: Seq<char>)
    requires
        valid_number(s),
    ensures
        all_digits(number_digits(s)),
{
    let d = number_digits(s);
    assert forall|j: int| 0 <= j < d.len() implies is_digit(#[trigger] d[j]) by {
        if j < int_part(s).len() {
            assert(d[j] == int_part(s)[j]);
        } else {
            assert(d[j] == frac_part(s)[j - int_part(s).len()]);
        }
    }
}

/// The whole part of valid number text is nonnegative.
pub proof fn lemma_serial_days_nonneg(s: Seq<char>)
    requires
        valid_number(s),
    ensures
        serial_days_of(s) >= 0,
{
    if point_pos(s) > 0 {
        lemma_number_digits_all(s);
        lemma_window_bound(number_digits(s), 0, point_pos(s) as nat);
    }
}

/// The scaled fraction is below one day.
pub proof fn lemma_serial_millis_bound(s: Seq<char>)
    requires
        valid_number(s),
    ensures
        0 <= serial_millis_of(s) < DAY_MILLIS,
{
    lemma_number_digits_all(s);
    let d = number_digits(s);
    let p = point_pos(s);
    let w = window_val(d, p, 9);
    lemma_window_bound(d, p, 9);
    assert(pow10(9) == 1000000000) by {
        reveal_with_fuel(pow10, 11);
    }
    assert(w * (DAY_MILLIS as int) < 1000000000 * (DAY_MILLIS as int)) by (nonlinear_arith)
        requires
            w < 1000000000,
            DAY_MILLIS as int > 0,
    ;
    vstd::arithmetic::div_mod::lemma_multiply_divide_lt(
        w * (DAY_MILLIS as int),
        1000000000,
        DAY_MILLIS as int,
    );
    assert(w * (DAY_MILLIS as int) >= 0) by (nonlinear_arith)
        requires
            w >= 0,
    ;
    vstd::arithmetic::div_mod::lemma_div_pos_is_pos(w * (DAY_MILLIS as int), 1000000000);
}

// ----------------------------------------------------------------- exec

/// Ten to the `k`, executable.
fn pow10_u64(k: usize) -> (r: u64)
    requires
        k <= 14,
    ensures
        r as int == pow10(k as int),
        1 <= r <= 100000000000000,
{
    proof {
        reveal_with_fuel(pow10, 16);
    }
    let mut r: u64 = 1;
    let mut i: usize = 0;
    while i < k
        invariant
            i <= k <= 14,
            r as int == pow10(i as int),
            r <= 100000000000000,
        decreases k - i,
    {
        proof {
            reveal_with_fuel(pow10, 16);
            lemma_pow10_increases(i as int, 13);
            lemma_pow10_increases(i as int + 1, 14);
        }
        r = r * 10;
        i += 1;
    }
    r
}

/// How number text was read: a representable value, a number too large
/// to carry as a serial, or text that is not a number at all.
pub enum NumParse {
    /// The parsed serial.
    Value(Serial),
    /// Valid number text whose whole part exceeds [`SERIAL_DAYS_MAX`].
    TooLarge,
    /// The text is not a number under the grammar.
    Invalid,
}

/// The whole part of the digit run up to `k`, bailing beyond the serial
/// bound.
fn window_prefix(d: &Vec<char>, k: usize) -> (r: Option<u64>)
    requires
        k <= d@.len(),
        all_digits(d@),
    ensures
        match r {
            Some(v) => v as int == window_val(d@, 0, k as nat) && v <= SERIAL_DAYS_MAX,
            None => window_val(d@, 0, k as nat) > SERIAL_DAYS_MAX,
        },
{
    let mut acc: u64 = 0;
    let mut i: usize = 0;
    while i < k
        invariant
            i <= k <= d@.len(),
            all_digits(d@),
            acc as int == window_val(d@, 0, i as nat),
            acc <= SERIAL_DAYS_MAX,
        decreases k - i,
    {
        let c = d[i];
        proof {
            assert(is_digit(d@[i as int]));
            assert(digit_at(d@, i as int) == digit_val(d@[i as int]));
        }
        let dv = ((c as u32) - 48) as u64;
        acc = acc * 10 + dv;
        if acc > SERIAL_DAYS_MAX {
            proof {
                lemma_window_grows(d@, 0, (i + 1) as nat, k as nat);
            }
            return None;
        }
        i += 1;
    }
    Some(acc)
}

/// Parse number text — an optional sign, digits with at most one decimal
/// point, an optional exponent — by exact decimal shifting.  Fraction
/// digits beyond the ninth place of the shifted point are ignored; a
/// whole part above [`SERIAL_DAYS_MAX`] is reported as too large.
#[verifier::rlimit(100)]
pub fn parse_number(s: &str) -> (r: NumParse)
    ensures
        match r {
            NumParse::Value(v) => valid_number(s@) && serial_days_of(s@) <= SERIAL_DAYS_MAX
                && v.neg == num_neg(s@) && v.days as int == serial_days_of(s@)
                && v.millis as int == serial_millis_of(s@) && v.wf(),
            NumParse::TooLarge => valid_number(s@) && serial_days_of(s@) > SERIAL_DAYS_MAX,
            NumParse::Invalid => !valid_number(s@),
        },
{
    let n = s.unicode_len();
    let ghost w = s@;
    let mut start: usize = 0;
    let mut neg = false;
    if n > 0 {
        let c0 = s.get_char(0);
        if c0 == '-' {
            neg = true;
            start = 1;
        } else if c0 == '+' {
            start = 1;
        }
    }
    let ghost b = num_body(w);
    proof {
        assert(b =~= w.skip(start as int));
    }
    // scan the mantissa, collecting its digits
    let mut digits: Vec<char> = Vec::new();
    let mut int_len: usize = 0;
    let mut saw_dot = false;
    let mut saw_exp = false;
    let mut dotpos: usize = 0;
    let mut mpos: usize = 0;
    let mut i: usize = start;
    while i < n && !saw_exp
        invariant
            start <= i <= n == w.len(),
            w == s@,
            b == num_body(w),
            b =~= w.skip(start as int),
            forall|j: int| 0 <= j < i - start ==> b[j] != 'e' && b[j] != 'E',
            !saw_dot ==> ({
                &&& forall|j: int| 0 <= j < i - start ==> b[j] != '.'
                &&& all_digits(b.take(i - start))
                &&& digits@ == b.take(i - start)
                &&& int_len == i - start
            }),
            saw_dot ==> ({
                &&& start <= dotpos < i
                &&& b[dotpos - start] == '.'
                &&& forall|j: int| 0 <= j < dotpos - start ==> b[j] != '.'
                &&& all_digits(b.take(dotpos - start))
                &&& all_digits(b.subrange(dotpos - start + 1, i - start))
                &&& digits@ == b.take(dotpos - start) + b.subrange(dotpos - start + 1, i - start)
                &&& int_len == dotpos - start
            }),
            saw_exp ==> i == mpos && start <= mpos && mpos < n && (b[mpos - start] == 'e'
                || b[mpos - start] == 'E'),
        decreases n - i + (if saw_exp { 0int } else { 1int }),
    {
        let c = s.get_char(i);
        proof {
            assert(b[i - start] == w[i as int]);
        }
        if '0' <= c && c <= '9' {
            digits.push(c);
            if !saw_dot {
                int_len = int_len + 1;
            }
            proof {
                if !saw_dot {
                    let t = b.take(i - start + 1);
                    assert(t.drop_last() =~= b.take(i - start));
                    assert(t.last() == b[i - start]);
                    assert(digits@ =~= t);
                    assert forall|j: int| 0 <= j < t.len() implies is_digit(#[trigger] t[j]) by {
                        if j < t.len() - 1 {
                            assert(t[j] == t.drop_last()[j]);
                        }
                    }
                } else {
                    let f = b.subrange(dotpos - start + 1, i - start + 1);
                    assert(f.drop_last() =~= b.subrange(dotpos - start + 1, i - start));
                    assert(f.last() == b[i - start]);
                    assert forall|j: int| 0 <= j < f.len() implies is_digit(#[trigger] f[j]) by {
                        if j < f.len() - 1 {
                            assert(f[j] == f.drop_last()[j]);
                        }
                    }
                    assert(digits@ =~= b.take(dotpos - start) + f);
                }
            }
            i += 1;
        } else if c == '.' && !saw_dot {
            saw_dot = true;
            dotpos = i;
            proof {
                assert(b.subrange(dotpos - start + 1, i + 1 - start) =~= Seq::<char>::empty());
                assert(digits@ =~= b.take(dotpos - start) + b.subrange(
                    dotpos - start + 1,
                    i + 1 - start,
                ));
            }
            i += 1;
        } else if c == 'e' || c == 'E' {
            saw_exp = true;
            mpos = i;
        } else {
            // a non-digit inside the mantissa: the text is not a number
            proof {
                lemma_exp_marker_min(b, i - start + 1);
                lemma_exp_marker_range(b);
                let m = mantissa(w);
                assert(m.len() > i - start);
                assert(forall|j: int| 0 <= j <= i - start ==> #[trigger] m[j] == b[j]);
                if !saw_dot {
                    lemma_dot_index_min(m, i - start + 1);
                    lemma_dot_index_range(m);
                    assert(int_part(w)[i - start] == m[i - start]);
                    assert(!is_digit(int_part(w)[i - start]));
                } else {
                    lemma_dot_index_at(m, dotpos - start);
                    assert(frac_part(w)[i - start - (dotpos - start) - 1] == m[i - start]);
                    assert(!is_digit(frac_part(w)[i - start - (dotpos - start) - 1]));
                }
            }
            return NumParse::Invalid;
        }
    }
    // tie the scanned fields to the grammar
    let ghost m = mantissa(w);
    proof {
        let mend = if saw_exp {
            mpos - start
        } else {
            n - start
        };
        lemma_exp_marker_at(b, mend);
        assert(m =~= b.take(mend));
        assert(forall|j: int| 0 <= j < m.len() ==> #[trigger] m[j] == b[j]);
        if saw_dot {
            lemma_dot_index_at(m, dotpos - start);
            assert(int_part(w) =~= b.take(dotpos - start));
            assert(frac_part(w) =~= b.subrange(dotpos - start + 1, mend));
        } else {
            lemma_dot_index_at(m, m.len() as int);
            assert(int_part(w) =~= m);
            assert(frac_part(w) =~= Seq::<char>::empty());
        }
        assert(digits@ =~= number_digits(w));
        assert(int_len == int_part(w).len());
    }
    if digits.len() == 0 {
        return NumParse::Invalid;
    }
    // scan the exponent
    let mut eneg = false;
    let mut eacc: u64 = 0;
    if saw_exp {
        let ghost et = exp_text(w);
        proof {
            assert(et =~= b.skip(mpos - start + 1));
        }
        let mut j = mpos + 1;
        if j >= n {
            proof {
                assert(exp_digits(w).len() == 0);
            }
            return NumParse::Invalid;
        }
        let cs = s.get_char(j);
        proof {
            assert(et[0] == w[j as int]);
        }
        if cs == '-' {
            eneg = true;
            j += 1;
        } else if cs == '+' {
            j += 1;
        }
        let ghost e0 = j as int;
        let ghost ed = exp_digits(w);
        proof {
            assert(et =~= w.skip(mpos + 1));
            if et[0] == '-' || et[0] == '+' {
                assert(ed == et.skip(1));
                assert(e0 == mpos + 2);
                assert(ed =~= w.skip(e0));
            } else {
                assert(ed == et);
                assert(e0 == mpos + 1);
                assert(ed =~= w.skip(e0));
            }
            assert(ed.len() == n - e0);
        }
        if j >= n {
            proof {
                assert(ed.len() == 0);
            }
            return NumParse::Invalid;
        }
        while j < n
            invariant
                0 <= e0 <= j <= n == w.len(),
                w == s@,
                ed == exp_digits(w),
                ed =~= w.skip(e0),
                ed.len() == n - e0,
                all_digits(ed.take(j - e0)),
                eacc as int == digits_val(ed.take(j - e0)),
                eacc <= EXP_MAX,
            decreases n - j,
        {
            let c = s.get_char(j);
            proof {
                assert(w.skip(e0)[j - e0] == w[j as int]);
                assert(ed[j - e0] == w[j as int]);
            }
            if !('0' <= c && c <= '9') {
                proof {
                    assert(!is_digit(ed[j - e0]));
                }
                return NumParse::Invalid;
            }
            let dv = ((c as u32) - 48) as u64;
            eacc = eacc * 10 + dv;
            proof {
                let t = ed.take(j - e0 + 1);
                assert(t.drop_last() =~= ed.take(j - e0));
                assert(t.last() == ed[j - e0]);
                assert forall|k2: int| 0 <= k2 < t.len() implies is_digit(#[trigger] t[k2]) by {
                    if k2 < t.len() - 1 {
                        assert(t[k2] == t.drop_last()[k2]);
                    }
                }
            }
            if eacc > EXP_MAX {
                proof {
                    if all_digits(ed) {
                        lemma_digits_val_prefix(ed, j - e0 + 1);
                    }
                }
                return NumParse::Invalid;
            }
            j += 1;
        }
        proof {
            assert(ed.take(n - e0) =~= ed);
        }
    }
    // the text is a valid number: place the shifted decimal point
    let ghost dseq = number_digits(w);
    let ghost p = point_pos(w);
    proof {
        if saw_exp {
            assert(exp_val(w) == if eneg {
                -(eacc as int)
            } else {
                eacc as int
            });
        } else {
            assert(exp_val(w) == 0);
        }
        lemma_number_digits_all(w);
    }
    let dl = digits.len();
    // the whole part
    let days: u64 = if eneg && eacc >= int_len as u64 {
        proof {
            assert(p <= 0);
        }
        0
    } else {
        let ppos: u128 = if eneg {
            int_len as u128 - eacc as u128
        } else {
            int_len as u128 + eacc as u128
        };
        proof {
            assert(p == ppos as int);
        }
        if ppos <= dl as u128 {
            match window_prefix(&digits, ppos as usize) {
                Some(v) => v,
                None => {
                    return NumParse::TooLarge;
                },
            }
        } else {
            let dv = match window_prefix(&digits, dl) {
                Some(v) => v,
                None => {
                    proof {
                        lemma_window_grows(dseq, 0, dl as nat, p as nat);
                    }
                    return NumParse::TooLarge;
                },
            };
            proof {
                lemma_window_pad(dseq, p as nat);
            }
            if dv == 0 {
                proof {
                    assert(window_val(dseq, 0, p as nat) == 0) by (nonlinear_arith)
                        requires
                            window_val(dseq, 0, p as nat) == window_val(dseq, 0, dseq.len())
                                * pow10(p - dseq.len()),
                            window_val(dseq, 0, dseq.len()) == 0,
                    ;
                }
                0
            } else {
                let pad = ppos - dl as u128;
                if pad > 14 {
                    proof {
                        lemma_pow10_increases(15, pad as int);
                        reveal_with_fuel(pow10, 16);
                        assert(window_val(dseq, 0, dseq.len()) * pow10(p - dseq.len()) >= pow10(
                            p - dseq.len(),
                        )) by (nonlinear_arith)
                            requires
                                window_val(dseq, 0, dseq.len()) >= 1,
                                pow10(p - dseq.len()) >= 1,
                        ;
                        lemma_pow10_pos(p - dseq.len());
                    }
                    return NumParse::TooLarge;
                }
                let pw = pow10_u64(pad as usize);
                proof {
                    assert((dv as int) * (pw as int) <= 100000000000 * 100000000000000)
                        by (nonlinear_arith)
                        requires
                            0 <= dv as int <= 100000000000,
                            1 <= pw as int <= 100000000000000,
                    ;
                }
                let prod: u128 = (dv as u128) * (pw as u128);
                proof {
                    assert(prod as int == window_val(dseq, 0, dseq.len()) * pow10(
                        p - dseq.len(),
                    )) by (nonlinear_arith)
                        requires
                            prod as int == (dv as int) * pow10(pad as int),
                            dv as int == window_val(dseq, 0, dseq.len()),
                            pad as int == p - dseq.len(),
                    ;
                }
                if prod > SERIAL_DAYS_MAX as u128 {
                    return NumParse::TooLarge;
                }
                prod as u64
            }
        }
    };
    // the nine fraction digits after the shifted point
    let mut mm: u64 = 0;
    let mut t: usize = 0;
    while t < 9
        invariant
            t <= 9,
            w == s@,
            dl == digits@.len(),
            dseq == digits@,
            all_digits(dseq),
            p == point_pos(w),
            int_len <= dl,
            eneg ==> p == int_len - eacc,
            !eneg ==> p == int_len + eacc,
            eacc <= EXP_MAX,
            mm as int == window_val(dseq, p, t as nat),
            (mm as int) < pow10(t as int),
        decreases 9 - t,
    {
        let dig: u64 = if eneg && eacc as u128 > int_len as u128 + t as u128 {
            proof {
                assert(p + t < 0);
                assert(digit_at(dseq, p + t) == 0);
            }
            0
        } else {
            let q: u128 = if eneg {
                int_len as u128 + t as u128 - eacc as u128
            } else {
                int_len as u128 + t as u128 + eacc as u128
            };
            proof {
                assert(q as int == p + t);
            }
            if q < dl as u128 {
                let c = digits[q as usize];
                proof {
                    assert(is_digit(dseq[q as int]));
                    assert(digit_at(dseq, p + t) == digit_val(dseq[q as int]));
                }
                ((c as u32) - 48) as u64
            } else {
                proof {
                    assert(digit_at(dseq, p + t) == 0);
                }
                0
            }
        };
        proof {
            reveal_with_fuel(pow10, 11);
            lemma_pow10_increases(t as int, 8);
            lemma_pow10_increases(t as int + 1, 9);
        }
        mm = mm * 10 + dig;
        t += 1;
    }
    proof {
        assert(pow10(9) == 1000000000) by {
            reveal_with_fuel(pow10, 11);
        }
        assert(mm < 1000000000);
    }
    let millis: u64 = mm * (DAY_MILLIS as u64) / 1000000000;
    proof {
        lemma_serial_millis_bound(w);
        assert(millis as int == serial_millis_of(w));
    }
    NumParse::Value(Serial { neg, days, millis: millis as u32 })
}

/// Parse number text into a serial, when it is a number and fits.
pub fn parse_serial(s: &str) -> (r: Option<Serial>)
    ensures
        match r {
            Some(v) => valid_number(s@) && serial_days_of(s@) <= SERIAL_DAYS_MAX && v.neg
                == num_neg(s@) && v.days as int == serial_days_of(s@) && v.millis as int
                == serial_millis_of(s@) && v.wf(),
            None => !valid_number(s@) || serial_days_of(s@) > SERIAL_DAYS_MAX,
        },
{
    match parse_number(s) {
        NumParse::Value(v) => Some(v),
        NumParse::TooLarge => None,
        NumParse::Invalid => None,
    }
}

} // verus!
