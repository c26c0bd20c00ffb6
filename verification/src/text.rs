//! Character-level text helpers: digit runs, decimal rendering, substring
//! tests, and splitting candidate lists at `'|'`.  Contracts are stated over
//! the `Seq<char>` view of strings.
use vstd::prelude::*;

verus! {

/// Relies on `String::from_iter`: builds the string holding exactly the
/// given characters, in order.
#[verifier::external_body]
pub(crate) fn string_from_chars(v: &Vec<char>) -> (r: String)
    ensures
        r@ == v@,
{
    v.iter().collect()
}

/// Character-by-character string equality.
pub(crate) fn str_eq(a: &str, b: &str) -> (r: bool)
    ensures
        r == (a@ == b@),
{
    let na = a.unicode_len();
    let nb = b.unicode_len();
    if na != nb {
        proof { assert(a@ != b@); }
        return false;
    }
    let mut i: usize = 0;
    while i < na
        invariant
            i <= na,
            na == a@.len(),
            a@.len() == b@.len(),
            forall|j: int| 0 <= j < i ==> a@[j] == b@[j],
        decreases na - i,
    {
        if a.get_char(i) != b.get_char(i) {
            proof { assert(a@ != b@); }
            return false;
        }
        i += 1;
    }
    proof { assert(a@ =~= b@); }
    true
}

/// String equality through the vstd `PartialEq` specification.
pub(crate) fn string_eq(a: &String, b: &String) -> (r: bool)
    ensures
        r == (a@ == b@),
{
    let r = (*a) == (*b);
    r
}

// ---------------------------------------------------------------- digits

/// Whether `c` is a decimal digit.
pub open spec fn is_digit(c: char) -> bool {
    '0' <= c && c <= '9'
}

/// The numeric value of a digit character.
pub open spec fn digit_val(c: char) -> int {
    c as int - 48
}

/// Whether every character of `s` is a decimal digit.
pub open spec fn all_digits(s: Seq<char>) -> bool {
    forall|i: int| 0 <= i < s.len() ==> is_digit(#[trigger] s[i])
}

/// The value of a digit run read as a decimal number.
pub open spec fn digits_val(s: Seq<char>) -> int
    decreases s.len(),
{
    if s.len() == 0 {
        0
    } else {
        digits_val(s.drop_last()) * 10 + digit_val(s.last())
    }
}

pub proof fn lemma_digits_val_nonneg(s: Seq<char>)
    requires
        all_digits(s),
    ensures
        digits_val(s) >= 0,
    decreases s.len(),
{
    if s.len() > 0 {
        assert(all_digits(s.drop_last()));
        lemma_digits_val_nonneg(s.drop_last());
    }
}

/// A digit run's value only grows as more digits are appended.
pub proof fn lemma_digits_val_prefix(s: Seq<char>, i: int)
    requires
        all_digits(s),
        0 <= i <= s.len(),
    ensures
        digits_val(s.take(i)) <= digits_val(s),
    decreases s.len() - i,
{
    if i < s.len() {
        let t = s.take(i + 1);
        assert(t.drop_last() =~= s.take(i));
        assert(all_digits(t));
        lemma_digits_val_nonneg(s.take(i));
        assert(digits_val(t) == digits_val(s.take(i)) * 10 + digit_val(s[i]));
        assert(digits_val(s.take(i)) <= digits_val(t));
        lemma_digits_val_prefix(s, i + 1);
        assert(s.take(s.len() as int) =~= s);
    } else {
        assert(s.take(i) =~= s);
    }
}

/// Parse a run of decimal digits as a `u32`.  Returns `None` on an empty
/// string, a non-digit character, or overflow.
pub fn parse_u32(s: &str) -> (r: Option<u32>)
    ensures
        match r {
            Some(v) => s@.len() > 0 && all_digits(s@) && digits_val(s@) <= u32::MAX
                && v == digits_val(s@),
            None => s@.len() == 0 || !all_digits(s@) || digits_val(s@) > u32::MAX,
        },
{
    let n = s.unicode_len();
    if n == 0 {
        return None;
    }
    let mut acc: u64 = 0;
    let mut i: usize = 0;
    while i < n
        invariant
            0 < n == s@.len(),
            i <= n,
            all_digits(s@.take(i as int)),
            acc == digits_val(s@.take(i as int)),
            acc <= u32::MAX,
        decreases n - i,
    {
        let c = s.get_char(i);
        if !('0' <= c && c <= '9') {
            return None;
        }
        let d = (c as u32) - 48;
        acc = acc * 10 + (d as u64);
        proof {
            assert(s@.take(i + 1).drop_last() =~= s@.take(i as int));
            assert(s@.take(i + 1).last() == s@[i as int]);
        }
        if acc > u32::MAX as u64 {
            proof {
                if all_digits(s@) {
                    lemma_digits_val_prefix(s@, i + 1);
                }
            }
            return None;
        }
        i += 1;
    }
    proof {
        assert(s@.take(n as int) =~= s@);
    }
    Some(acc as u32)
}

/// Parse a run of decimal digits as a `usize`, through [`parse_u32`].
pub fn parse_usize(s: &str) -> (r: Option<usize>)
    ensures
        match r {
            Some(v) => s@.len() > 0 && all_digits(s@) && digits_val(s@) <= u32::MAX
                && v == digits_val(s@),
            None => s@.len() == 0 || !all_digits(s@) || digits_val(s@) > u32::MAX,
        },
{
    match parse_u32(s) {
        Some(v) => Some(v as usize),
        None => None,
    }
}

// ------------------------------------------------------------- rendering

/// The decimal digits of `n`, most significant first; empty for `n <= 0`.
pub open spec fn dec_digits(n: int) -> Seq<char>
    decreases n,
{
    if n <= 0 {
        Seq::empty()
    } else {
        dec_digits(n / 10).push((48 + n % 10) as char)
    }
}

/// The decimal rendering of `n >= 0`, with `0` rendered as `"0"`.
pub open spec fn dec_text(n: int) -> Seq<char> {
    if n == 0 {
        seq!['0']
    } else {
        dec_digits(n)
    }
}

fn push_dec_digits(out: &mut Vec<char>, n: u64)
    ensures
        final(out)@ == old(out)@ + dec_digits(n as int),
    decreases n,
{
    if n > 0 {
        push_dec_digits(out, n / 10);
        let d = (n % 10) as u8;
        out.push((48 + d) as char);
        proof {
            assert(out@ =~= old(out)@ + dec_digits(n as int));
        }
    } else {
        proof {
            assert(out@ =~= old(out)@ + dec_digits(n as int));
        }
    }
}

/// Append the decimal rendering of `n` to `out`.
pub fn push_dec_u64(out: &mut Vec<char>, n: u64)
    ensures
        final(out)@ == old(out)@ + dec_text(n as int),
{
    if n == 0 {
        out.push('0');
        proof {
            assert(out@ =~= old(out)@ + dec_text(0));
        }
    } else {
        push_dec_digits(out, n);
    }
}

/// Append the decimal rendering of `n` to `out`.
pub fn push_dec_u32(out: &mut Vec<char>, n: u32)
    ensures
        final(out)@ == old(out)@ + dec_text(n as int),
{
    push_dec_u64(out, n as u64);
}

/// `n` rendered as exactly two digits; meaningful for `0 <= n < 100`.
pub open spec fn pad2(n: int) -> Seq<char> {
    seq![(48 + n / 10) as char, (48 + n % 10) as char]
}

/// Append the two-digit rendering of `n < 100` to `out`.
pub fn push_pad2(out: &mut Vec<char>, n: u32)
    requires
        n < 100,
    ensures
        final(out)@ == old(out)@ + pad2(n as int),
{
    out.push((48 + (n / 10) as u8) as char);
    out.push((48 + (n % 10) as u8) as char);
    proof {
        assert(out@ =~= old(out)@ + pad2(n as int));
    }
}

/// `n` rendered as exactly four digits; meaningful for `0 <= n < 10000`.
pub open spec fn pad4(n: int) -> Seq<char> {
    seq![
        (48 + n / 1000) as char,
        (48 + (n / 100) % 10) as char,
        (48 + (n / 10) % 10) as char,
        (48 + n % 10) as char,
    ]
}

/// Append the four-digit rendering of `n < 10000` to `out`.
pub fn push_pad4(out: &mut Vec<char>, n: u32)
    requires
        n < 10000,
    ensures
        final(out)@ == old(out)@ + pad4(n as int),
{
    out.push((48 + (n / 1000) as u8) as char);
    out.push((48 + ((n / 100) % 10) as u8) as char);
    out.push((48 + ((n / 10) % 10) as u8) as char);
    out.push((48 + (n % 10) as u8) as char);
    proof {
        assert(out@ =~= old(out)@ + pad4(n as int));
    }
}

/// Append every character of `s` to `out`.
pub fn push_str_chars(out: &mut Vec<char>, s: &str)
    ensures
        final(out)@ == old(out)@ + s@,
{
    let n = s.unicode_len();
    let mut i: usize = 0;
    while i < n
        invariant
            i <= n,
            n == s@.len(),
            out@ == old(out)@ + s@.take(i as int),
        decreases n - i,
    {
        out.push(s.get_char(i));
        proof {
            assert(old(out)@ + s@.take(i as int) + seq![s@[i as int]] =~= old(out)@ + s@.take(
                i + 1,
            ));
        }
        i += 1;
    }
    proof {
        assert(s@.take(n as int) =~= s@);
    }
}

// ----------------------------------------------------------- substrings

/// Whether the two-character sequence `a b` occurs in `s`.
pub open spec fn has_sub2(s: Seq<char>, a: char, b: char) -> bool {
    exists|i: int| 0 <= i && i + 2 <= s.len() && #[trigger] s[i] == a && s[i + 1] == b
}

/// Whether the character `a` occurs in `s`.
pub open spec fn has_char(s: Seq<char>, a: char) -> bool {
    exists|i: int| 0 <= i < s.len() && s[i] == a
}

/// Whether `a` immediately followed by `b` occurs in `s`.
pub fn contains2(s: &str, a: char, b: char) -> (r: bool)
    ensures
        r == has_sub2(s@, a, b),
{
    let n = s.unicode_len();
    if n < 2 {
        return false;
    }
    let mut i: usize = 0;
    while i <= n - 2
        invariant
            n == s@.len(),
            n >= 2,
            i <= n - 1,
            forall|j: int| 0 <= j && j < i ==> !(#[trigger] s@[j] == a && s@[j + 1] == b),
        decreases n - i,
    {
        if s.get_char(i) == a && s.get_char(i + 1) == b {
            return true;
        }
        i += 1;
    }
    false
}

/// Whether `a` occurs in `s`.
pub fn contains1(s: &str, a: char) -> (r: bool)
    ensures
        r == has_char(s@, a),
{
    let n = s.unicode_len();
    let mut i: usize = 0;
    while i < n
        invariant
            n == s@.len(),
            i <= n,
            forall|j: int| 0 <= j < i ==> s@[j] != a,
        decreases n - i,
    {
        if s.get_char(i) == a {
            return true;
        }
        i += 1;
    }
    false
}

// ------------------------------------------------------------- splitting

/// The segments of `s` between occurrences of `'|'`; always at least one
/// segment, and one more segment than there are separators.
pub open spec fn split_pipe_spec(s: Seq<char>) -> Seq<Seq<char>>
    decreases s.len(),
{
    if s.len() == 0 {
        seq![Seq::<char>::empty()]
    } else if s[0] == '|' {
        seq![Seq::<char>::empty()] + split_pipe_spec(s.skip(1))
    } else {
        let rest = split_pipe_spec(s.skip(1));
        seq![seq![s[0]] + rest[0]] + rest.skip(1)
    }
}

pub proof fn lemma_split_pipe_len(s: Seq<char>)
    ensures
        split_pipe_spec(s).len() >= 1,
    decreases s.len(),
{
    if s.len() > 0 {
        lemma_split_pipe_len(s.skip(1));
    }
}

/// `first` glued onto the head segment of `rest`.
spec fn prepend_first(first: Seq<char>, rest: Seq<Seq<char>>) -> Seq<Seq<char>>
    recommends
        rest.len() >= 1,
{
    seq![first + rest[0]] + rest.skip(1)
}

/// Split `s` at every `'|'` into its segments.
pub fn split_pipe(s: &str) -> (r: Vec<String>)
    ensures
        r.deep_view() == split_pipe_spec(s@),
        r@.len() >= 1,
{
    let n = s.unicode_len();
    let mut out: Vec<String> = Vec::new();
    let mut cur: Vec<char> = Vec::new();
    let mut i: usize = 0;
    proof {
        lemma_split_pipe_len(s@);
        assert(s@.skip(0) =~= s@);
        let l = split_pipe_spec(s@);
        assert(Seq::<char>::empty() + l[0] =~= l[0]);
        assert(prepend_first(Seq::<char>::empty(), l) =~= l);
        assert(out.deep_view() + prepend_first(Seq::<char>::empty(), l) =~= l);
    }
    while i < n
        invariant
            i <= n,
            n == s@.len(),
            split_pipe_spec(s@.skip(i as int)).len() >= 1,
            split_pipe_spec(s@) =~= out.deep_view() + prepend_first(
                cur@,
                split_pipe_spec(s@.skip(i as int)),
            ),
        decreases n - i,
    {
        let c = s.get_char(i);
        let ghost odv = out.deep_view();
        let ghost ocur = cur@;
        let ghost mid = split_pipe_spec(s@.skip(i as int));
        let ghost tail = split_pipe_spec(s@.skip(i + 1));
        proof {
            assert(s@.skip(i as int)[0] == s@[i as int]);
            assert(s@.skip(i as int).skip(1) =~= s@.skip(i + 1));
            lemma_split_pipe_len(s@.skip(i + 1));
        }
        if c == '|' {
            let seg = string_from_chars(&cur);
            out.push(seg);
            cur = Vec::new();
            proof {
                assert(mid =~= seq![Seq::<char>::empty()] + tail);
                assert(mid[0] =~= Seq::<char>::empty());
                assert(mid.skip(1) =~= tail);
                assert(ocur + mid[0] =~= ocur);
                assert(prepend_first(ocur, mid) =~= seq![ocur] + prepend_first(
                    Seq::<char>::empty(),
                    tail,
                )) by {
                    assert(Seq::<char>::empty() + tail[0] =~= tail[0]);
                    assert(prepend_first(ocur, mid)[0] =~= ocur);
                    assert(prepend_first(ocur, mid).skip(1) =~= prepend_first(
                        Seq::<char>::empty(),
                        tail,
                    ));
                };
                assert(out.deep_view() =~= odv + seq![ocur]);
                assert(out.deep_view() + prepend_first(cur@, tail) =~= odv + prepend_first(
                    ocur,
                    mid,
                ));
            }
        } else {
            cur.push(c);
            proof {
                assert(mid =~= prepend_first(seq![c], tail)) by {
                    let rest = split_pipe_spec(s@.skip(i as int).skip(1));
                    assert(rest == tail);
                };
                assert(prepend_first(ocur, mid) =~= prepend_first(cur@, tail)) by {
                    assert(mid[0] =~= seq![c] + tail[0]);
                    assert(mid.skip(1) =~= tail.skip(1));
                    assert(ocur + (seq![c] + tail[0]) =~= cur@ + tail[0]);
                };
            }
        }
        i += 1;
    }
    proof {
        assert(s@.skip(n as int) =~= Seq::<char>::empty());
    }
    let ghost odv = out.deep_view();
    let ghost ocur = cur@;
    let seg = string_from_chars(&cur);
    out.push(seg);
    proof {
        assert(prepend_first(ocur, split_pipe_spec(Seq::<char>::empty())) =~= seq![ocur]);
        assert(out.deep_view() =~= odv + seq![ocur]);
        assert(out.deep_view() =~= split_pipe_spec(s@));
        lemma_split_pipe_len(s@);
    }
    out
}

// -------------------------------------------------------- field scanning

/// The index of the first occurrence of `c`, or the length when absent.
pub open spec fn first_at(s: Seq<char>, c: char) -> int
    decreases s.len(),
{
    if s.len() == 0 {
        0
    } else if s[0] == c {
        0
    } else {
        1 + first_at(s.skip(1), c)
    }
}

pub proof fn lemma_first_at_range(s: Seq<char>, c: char)
    ensures
        0 <= first_at(s, c) <= s.len(),
    decreases s.len(),
{
    if s.len() > 0 && s[0] != c {
        lemma_first_at_range(s.skip(1), c);
    }
}

/// Where the first occurrence is known by scanning, `first_at` agrees.
pub proof fn lemma_first_at_found(s: Seq<char>, c: char, i: int)
    requires
        0 <= i <= s.len(),
        forall|j: int| 0 <= j < i ==> s[j] != c,
        i == s.len() || s[i] == c,
    ensures
        first_at(s, c) == i,
    decreases s.len(),
{
    if s.len() == 0 {
    } else if s[0] == c {
        assert(i == 0);
    } else {
        assert(i >= 1);
        let t = s.skip(1);
        assert(forall|j: int| 0 <= j < i - 1 ==> #[trigger] t[j] == s[j + 1] && t[j] != c);
        assert(i - 1 == t.len() || t[i - 1] == c);
        lemma_first_at_found(t, c, i - 1);
    }
}

} // verus!
