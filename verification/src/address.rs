//! The address codec: conversions between column letters and 1-based column
//! numbers (bijective base 26, digits `A`=1 … `Z`=26 and no zero digit),
//! between textual cell addresses and `(row, column)` pairs, and membership
//! tests against merged ranges.
use vstd::prelude::*;

use crate::text::{all_digits, dec_text, digits_val, is_digit, push_dec_u32, string_from_chars};
use crate::{ColNum, MergedRange, RowNum, XlsxError};

verus! {

/// ASCII lowercase letters mapped to uppercase; everything else unchanged.
pub open spec fn upper_char(c: char) -> char {
    if 'a' <= c && c <= 'z' {
        (c as int - 32) as char
    } else {
        c
    }
}

/// Whether a character counts as a column-letter digit: anything that
/// uppercases to a code point above `'@'` (64).
pub open spec fn keep_char(c: char) -> bool {
    upper_char(c) as int > 64
}

/// The column-letter digits of `s`: uppercased, with everything at or below
/// `'@'` (digits, punctuation) dropped.
pub open spec fn canon_letters(s: Seq<char>) -> Seq<char>
    decreases s.len(),
{
    if s.len() == 0 {
        Seq::empty()
    } else {
        let rest = canon_letters(s.drop_last());
        if keep_char(s.last()) {
            rest.push(upper_char(s.last()))
        } else {
            rest
        }
    }
}

/// The bijective base-26 value of a digit run: each character contributes
/// its code point minus 64 (`A`=1 … `Z`=26).
pub open spec fn col_value(s: Seq<char>) -> int
    decreases s.len(),
{
    if s.len() == 0 {
        0
    } else {
        col_value(s.drop_last()) * 26 + (s.last() as int - 64)
    }
}

/// The bijective base-26 digit run of a positive column number, uppercase.
pub open spec fn col_letters(n: int) -> Seq<char>
    decreases n,
{
    if n <= 0 {
        Seq::empty()
    } else {
        col_letters((n - 1) / 26).push((65 + (n - 1) % 26) as char)
    }
}

/// The bytes of a raw address, read as characters.
pub open spec fn bytes_as_chars(s: Seq<u8>) -> Seq<char> {
    Seq::new(s.len(), |i: int| s[i] as char)
}

/// Every character that [`canon_letters`] keeps lies above `'@'`.
proof fn lemma_canon_chars(s: Seq<char>)
    ensures
        forall|i: int|
            0 <= i < canon_letters(s).len() ==> (#[trigger] canon_letters(s)[i]) as int > 64,
    decreases s.len(),
{
    if s.len() > 0 {
        lemma_canon_chars(s.drop_last());
        let rest = canon_letters(s.drop_last());
        if keep_char(s.last()) {
            assert(canon_letters(s) == rest.push(upper_char(s.last())));
            assert forall|i: int|
                0 <= i < canon_letters(s).len() implies (#[trigger] canon_letters(s)[i]) as int
                > 64 by {
                if i < rest.len() {
                    assert(canon_letters(s)[i] == rest[i]);
                } else {
                    assert(canon_letters(s)[i] == upper_char(s.last()));
                }
            }
        }
    }
}

/// A character that the canonical filter keeps makes the run nonempty.
proof fn lemma_canon_nonempty(s: Seq<char>, i: int)
    requires
        0 <= i < s.len(),
        keep_char(s[i]),
    ensures
        canon_letters(s).len() >= 1,
    decreases s.len(),
{
    if i == s.len() - 1 {
    } else {
        lemma_canon_nonempty(s.drop_last(), i);
    }
}

proof fn lemma_col_value_nonneg(s: Seq<char>)
    requires
        forall|i: int| 0 <= i < s.len() ==> (#[trigger] s[i]) as int > 64,
    ensures
        col_value(s) >= 0,
        s.len() >= 1 ==> col_value(s) >= 1,
    decreases s.len(),
{
    if s.len() > 0 {
        assert(forall|i: int|
            0 <= i < s.drop_last().len() ==> (#[trigger] s.drop_last()[i]) as int > 64);
        lemma_col_value_nonneg(s.drop_last());
    }
}

/// A digit run's value only grows as more digits are appended.
proof fn lemma_col_value_prefix(s: Seq<char>, i: int)
    requires
        forall|j: int| 0 <= j < s.len() ==> (#[trigger] s[j]) as int > 64,
        0 <= i <= s.len(),
    ensures
        col_value(s.take(i)) <= col_value(s),
    decreases s.len() - i,
{
    if i < s.len() {
        let t = s.take(i + 1);
        assert(t.drop_last() =~= s.take(i));
        assert(forall|j: int| 0 <= j < s.take(i).len() ==> (#[trigger] s.take(i)[j]) as int > 64);
        lemma_col_value_nonneg(s.take(i));
        assert(col_value(t) == col_value(s.take(i)) * 26 + (s[i] as int - 64));
        lemma_col_value_prefix(s, i + 1);
        assert(s.take(s.len() as int) =~= s);
    } else {
        assert(s.take(i) =~= s);
    }
}

/// Reading a column number's letters back as a number returns the number:
/// the encoder and the decoder are inverse on every positive column number.
pub proof fn lemma_column_round_trip_num(n: int)
    requires
        1 <= n,
    ensures
        col_value(col_letters(n)) == n,
    decreases n,
{
    let m = (n - 1) / 26;
    let r = (n - 1) % 26;
    vstd::arithmetic::div_mod::lemma_fundamental_div_mod(n - 1, 26);
    let c = (65 + r) as char;
    assert(c as int == 65 + r);
    assert(col_letters(n) == col_letters(m).push(c));
    assert(col_letters(n).drop_last() =~= col_letters(m));
    if m == 0 {
        assert(col_value(col_letters(n)) == col_value(Seq::<char>::empty()) * 26 + (r + 1));
    } else {
        lemma_column_round_trip_num(m);
        assert(col_value(col_letters(n)) == m * 26 + (r + 1));
    }
}

/// Rendering a digit run's value back to letters returns the same run: the
/// decoder and the encoder are inverse on every nonempty uppercase run.
pub proof fn lemma_column_round_trip_letters(s: Seq<char>)
    requires
        s.len() >= 1,
        forall|i: int| 0 <= i < s.len() ==> 'A' <= #[trigger] s[i] && s[i] <= 'Z',
    ensures
        col_letters(col_value(s)) == s,
    decreases s.len(),
{
    let v = col_value(s);
    let d = s.last() as int - 64;
    assert(1 <= d <= 26);
    let head = s.drop_last();
    assert(forall|i: int| 0 <= i < head.len() ==> (#[trigger] head[i]) as int > 64);
    lemma_col_value_nonneg(head);
    let v0 = col_value(head);
    assert(v == v0 * 26 + d);
    vstd::arithmetic::div_mod::lemma_fundamental_div_mod_converse(v - 1, 26, v0, d - 1);
    assert((v - 1) / 26 == v0 && (v - 1) % 26 == d - 1);
    assert(v >= 1) by {
        assert(v0 * 26 >= 0) by (nonlinear_arith)
            requires
                v0 >= 0,
        ;
    }
    assert(col_letters(v) == col_letters(v0).push((64 + d) as char));
    assert((64 + d) as char == s.last()) by {
        assert(64 + d == s.last() as int);
    }
    if s.len() == 1 {
        assert(v0 == 0);
        assert(col_letters(v) =~= s);
    } else {
        lemma_column_round_trip_letters(head);
        assert(col_letters(v) =~= s);
    }
}

/// Convert a textual column address (such as `D` or `D2`) to its 1-based
/// column number.  Lowercase letters are accepted; digits and other low
/// characters are ignored.  Fails when the letters denote a column beyond
/// 65535.
pub fn get_num_from_ord(addr: &[u8]) -> (r: Result<ColNum, XlsxError>)
    ensures
        match r {
            Ok(c) => col_value(canon_letters(bytes_as_chars(addr@))) <= 65535 && c as int
                == col_value(canon_letters(bytes_as_chars(addr@))),
            Err(e) => e == XlsxError::InvalidAddress && col_value(
                canon_letters(bytes_as_chars(addr@)),
            ) > 65535,
        },
{
    let ghost full = bytes_as_chars(addr@);
    let n = addr.len();
    let mut kept: Vec<char> = Vec::new();
    let mut i: usize = 0;
    while i < n
        invariant
            i <= n == addr@.len(),
            full == bytes_as_chars(addr@),
            kept@ == canon_letters(full.take(i as int)),
            forall|k: int| 0 <= k < kept@.len() ==> ((#[trigger] kept@[k]) as int) < 256,
        decreases n - i,
    {
        let b = addr[i];
        let c = b as char;
        let uc: char = if 97 <= b && b <= 122 {
            (b - 32) as char
        } else {
            c
        };
        proof {
            assert(full.take(i + 1).drop_last() =~= full.take(i as int));
            assert(full.take(i + 1).last() == full[i as int]);
            assert(full[i as int] == c);
            assert(uc == upper_char(c));
        }
        if uc > '@' {
            kept.push(uc);
        }
        i += 1;
    }
    proof {
        assert(full.take(n as int) =~= full);
        lemma_canon_chars(full);
    }
    let m = kept.len();
    let mut col: u32 = 0;
    let mut j: usize = 0;
    while j < m
        invariant
            j <= m == kept@.len(),
            full == bytes_as_chars(addr@),
            kept@ == canon_letters(full),
            forall|k: int| 0 <= k < kept@.len() ==> (#[trigger] kept@[k]) as int > 64,
            forall|k: int| 0 <= k < kept@.len() ==> ((#[trigger] kept@[k]) as int) < 256,
            col as int == col_value(kept@.take(j as int)),
            col <= 65535,
        decreases m - j,
    {
        let c = kept[j];
        proof {
            assert(kept@[j as int] as int > 64);
            assert((kept@[j as int] as int) < 256);
        }
        let d = (c as u32) - 64;
        proof {
            assert(kept@.take(j + 1).drop_last() =~= kept@.take(j as int));
            assert(kept@.take(j + 1).last() == kept@[j as int]);
            assert(d as int == kept@[j as int] as int - 64);
            assert(col_value(kept@.take(j + 1)) == col as int * 26 + d);
        }
        col = col * 26 + d;
        if col > 65535 {
            proof {
                lemma_col_value_prefix(kept@, j + 1);
            }
            return Err(XlsxError::InvalidAddress);
        }
        j += 1;
    }
    proof {
        assert(kept@.take(m as int) =~= kept@);
    }
    Ok(col as u16)
}

spec fn rev(s: Seq<char>) -> Seq<char>
    decreases s.len(),
{
    if s.len() == 0 {
        Seq::empty()
    } else {
        seq![s.last()] + rev(s.drop_last())
    }
}

proof fn lemma_rev_index(s: Seq<char>)
    ensures
        rev(s).len() == s.len(),
        forall|i: int| 0 <= i < s.len() ==> rev(s)[i] == s[s.len() - 1 - i],
    decreases s.len(),
{
    if s.len() > 0 {
        lemma_rev_index(s.drop_last());
    }
}

/// Convert a 1-based column number to its column letters (`1` is `A`,
/// `27` is `AA`).  Fails on zero, which has no letters.
pub fn get_ord_from_num(num: ColNum) -> (r: Result<String, XlsxError>)
    ensures
        match r {
            Ok(s) => num >= 1 && s@ == col_letters(num as int),
            Err(e) => e == XlsxError::InvalidAddress && num == 0,
        },
{
    if num == 0 {
        return Err(XlsxError::InvalidAddress);
    }
    let mut n: u32 = num as u32;
    let mut tmp: Vec<char> = Vec::new();
    while n > 0
        invariant
            col_letters(num as int) == col_letters(n as int) + rev(tmp@),
        decreases n,
    {
        let d = ((n - 1) % 26) as u8;
        let c = (65 + d) as char;
        let ghost otmp = tmp@;
        tmp.push(c);
        proof {
            vstd::arithmetic::div_mod::lemma_fundamental_div_mod(n as int - 1, 26);
            assert(c as int == 65 + (n as int - 1) % 26);
            assert(col_letters(n as int) == col_letters((n as int - 1) / 26).push(c));
            assert(tmp@.drop_last() =~= otmp);
            assert(tmp@.last() == c);
            assert(rev(tmp@) =~= seq![c] + rev(otmp));
            assert(col_letters((n as int - 1) / 26).push(c) + rev(otmp) =~= col_letters(
                (n as int - 1) / 26,
            ) + rev(tmp@));
        }
        n = (n - 1) / 26;
    }
    let m = tmp.len();
    let mut out: Vec<char> = Vec::new();
    proof {
        lemma_rev_index(tmp@);
    }
    let mut i: usize = 0;
    while i < m
        invariant
            i <= m == tmp@.len(),
            rev(tmp@).len() == m,
            forall|k: int| 0 <= k < tmp@.len() ==> rev(tmp@)[k] == tmp@[tmp@.len() - 1 - k],
            out@.len() == i,
            forall|k: int| 0 <= k < i ==> out@[k] == rev(tmp@)[k],
        decreases m - i,
    {
        out.push(tmp[m - 1 - i]);
        i += 1;
    }
    proof {
        assert(out@ =~= rev(tmp@));
        assert(col_letters(num as int) =~= rev(tmp@));
    }
    Ok(string_from_chars(&out))
}

/// The index of the last column-letter character of `s`, or `-1` when `s`
/// holds none.
pub open spec fn last_letter_at(s: Seq<char>) -> int
    decreases s.len(),
{
    if s.len() == 0 {
        -1
    } else if keep_char(s.last()) {
        s.len() - 1
    } else {
        last_letter_at(s.drop_last())
    }
}

/// Convert a textual cell address such as `D2` to its `(row, column)` pair:
/// the digits after the last letter give the row, the letters give the
/// column.  Fails when there is no letter, when the row digits are missing,
/// malformed or zero (rows are 1-based), or when either part is out of
/// range.
pub fn get_tuple_from_ord(addr: &[u8]) -> (r: Result<(RowNum, ColNum), XlsxError>)
    ensures
        ({
            let full = bytes_as_chars(addr@);
            let cut = last_letter_at(full);
            let rowtxt = full.skip(cut + 1);
            match r {
                Ok((row, col)) => cut >= 0 && rowtxt.len() > 0 && all_digits(rowtxt)
                    && 1 <= digits_val(rowtxt) <= u32::MAX && row as int == digits_val(rowtxt)
                    && 1 <= col_value(canon_letters(full)) <= 65535 && col as int == col_value(
                    canon_letters(full),
                ),
                Err(e) => e == XlsxError::InvalidAddress && (cut < 0 || rowtxt.len() == 0
                    || !all_digits(rowtxt) || digits_val(rowtxt) == 0 || digits_val(rowtxt)
                    > u32::MAX || col_value(canon_letters(full)) > 65535),
            }
        }),
{
    let ghost full = bytes_as_chars(addr@);
    let n = addr.len();
    // find the last letter
    let mut i: usize = n;
    let mut cut: Option<usize> = None;
    proof {
        assert(full.take(n as int) =~= full);
    }
    while i > 0
        invariant
            i <= n == addr@.len(),
            full == bytes_as_chars(addr@),
            match cut {
                Some(k) => k < n && last_letter_at(full) == k as int && keep_char(full[k as int]),
                None => last_letter_at(full.take(i as int)) == last_letter_at(full),
            },
            cut is Some ==> i == 0,
        decreases i,
    {
        let b = addr[i - 1];
        let keep = b > 64 || (97 <= b && b <= 122);
        proof {
            assert(full.take(i as int).last() == full[i - 1]);
            assert(full.take(i as int).drop_last() =~= full.take(i - 1));
            assert(full[i - 1] == addr@[i - 1] as char);
            assert(keep == keep_char(full[i - 1]));
        }
        if keep {
            cut = Some(i - 1);
            i = 0;
        } else {
            i -= 1;
        }
    }
    let cut_idx = match cut {
        Some(k) => k,
        None => {
            proof {
                assert(full.take(0) =~= Seq::<char>::empty());
                assert(last_letter_at(Seq::<char>::empty()) == -1);
            }
            return Err(XlsxError::InvalidAddress);
        },
    };
    // parse the row digits after the last letter
    let ghost rowtxt = full.skip(cut_idx + 1);
    if cut_idx + 1 >= n {
        proof {
            assert(rowtxt.len() == 0);
        }
        return Err(XlsxError::InvalidAddress);
    }
    let mut acc: u64 = 0;
    let mut j: usize = cut_idx + 1;
    while j < n
        invariant
            cut_idx + 1 <= j <= n == addr@.len(),
            full == bytes_as_chars(addr@),
            last_letter_at(full) == cut_idx as int,
            rowtxt == full.skip(cut_idx + 1),
            rowtxt.len() == n - cut_idx - 1,
            all_digits(rowtxt.take(j - cut_idx - 1)),
            acc == digits_val(rowtxt.take(j - cut_idx - 1)),
            acc <= u32::MAX,
        decreases n - j,
    {
        let b = addr[j];
        proof {
            assert(rowtxt[j - cut_idx - 1] == full[j as int]);
            assert(full[j as int] == addr@[j as int] as char);
        }
        if !(48 <= b && b <= 57) {
            proof {
                assert(!is_digit(rowtxt[j - cut_idx - 1]));
            }
            return Err(XlsxError::InvalidAddress);
        }
        let d = (b - 48) as u64;
        acc = acc * 10 + d;
        proof {
            let k = j - cut_idx - 1;
            assert(rowtxt.take(k + 1).drop_last() =~= rowtxt.take(k));
            assert(rowtxt.take(k + 1).last() == rowtxt[k]);
        }
        if acc > u32::MAX as u64 {
            proof {
                if all_digits(rowtxt) {
                    crate::text::lemma_digits_val_prefix(rowtxt, j - cut_idx);
                }
            }
            return Err(XlsxError::InvalidAddress);
        }
        j += 1;
    }
    proof {
        assert(rowtxt.take(n - cut_idx - 1) =~= rowtxt);
    }
    if acc == 0 {
        return Err(XlsxError::InvalidAddress);
    }
    let row: u32 = acc as u32;
    // and the column letters from the whole text
    match get_num_from_ord(addr) {
        Ok(col) => {
            proof {
                lemma_canon_nonempty(full, cut_idx as int);
                lemma_canon_chars(full);
                lemma_col_value_nonneg(canon_letters(full));
            }
            Ok((row, col))
        },
        Err(e) => Err(e),
    }
}

/// Convert a `(row, column)` pair to its textual address (`(2, 4)` is
/// `D2`).  Fails on a zero column, which has no letters.
pub fn get_ord_from_tuple(row: RowNum, col: ColNum) -> (r: Result<String, XlsxError>)
    ensures
        match r {
            Ok(s) => col >= 1 && s@ == col_letters(col as int) + dec_text(row as int),
            Err(e) => e == XlsxError::InvalidAddress && col == 0,
        },
{
    let letters = match get_ord_from_num(col) {
        Ok(s) => s,
        Err(e) => {
            return Err(e);
        },
    };
    let mut out: Vec<char> = Vec::new();
    crate::text::push_str_chars(&mut out, letters.as_str());
    push_dec_u32(&mut out, row);
    Ok(string_from_chars(&out))
}

/// Whether the cell `(row, col)` lies inside the rectangle `rg`, corners
/// included.
pub open spec fn cell_in_range(rg: MergedRange, row: RowNum, col: ColNum) -> bool {
    rg.0.0 <= row && rg.0.1 <= col && rg.1.0 >= row && rg.1.1 >= col
}

/// First-match lookup of `(row, col)` among the ranges: whether any range
/// holds the cell and, when the cell is the first matching range's top-left
/// corner, that range's extent in rows and columns.
pub open spec fn merged_lookup(rgs: Seq<MergedRange>, row: RowNum, col: ColNum) -> (bool, Option<
    (RowNum, ColNum),
>)
    decreases rgs.len(),
{
    if rgs.len() == 0 {
        (false, None)
    } else if cell_in_range(rgs[0], row, col) {
        if rgs[0].0.0 == row && rgs[0].0.1 == col {
            (
                true,
                Some(((rgs[0].1.0 - row + 1) as RowNum, (rgs[0].1.1 - col + 1) as ColNum)),
            )
        } else {
            (true, None)
        }
    } else {
        merged_lookup(rgs.skip(1), row, col)
    }
}

/// Test whether a cell lies in one of the merged ranges.  The first matching
/// range decides: if the cell is its top-left corner the extent of the range
/// is returned beside the flag, otherwise only the flag is set.
pub fn is_merged_cell(mgs: &Vec<MergedRange>, row: RowNum, col: ColNum) -> (r: (
    bool,
    Option<(RowNum, ColNum)>,
))
    requires
        forall|i: int|
            0 <= i < mgs@.len() ==> (#[trigger] mgs@[i]).0.0 >= 1 && mgs@[i].0.1 >= 1,
    ensures
        r == merged_lookup(mgs@, row, col),
{
    let n = mgs.len();
    let mut i: usize = 0;
    proof {
        assert(mgs@.skip(0) =~= mgs@);
    }
    while i < n
        invariant
            i <= n == mgs@.len(),
            forall|k: int|
                0 <= k < mgs@.len() ==> (#[trigger] mgs@[k]).0.0 >= 1 && mgs@[k].0.1 >= 1,
            merged_lookup(mgs@, row, col) == merged_lookup(mgs@.skip(i as int), row, col),
        decreases n - i,
    {
        let (left_top, right_end) = mgs[i];
        proof {
            assert(mgs@.skip(i as int)[0] == mgs@[i as int]);
            assert(mgs@.skip(i as int).skip(1) =~= mgs@.skip(i + 1));
        }
        if left_top.0 <= row && left_top.1 <= col && right_end.0 >= row && right_end.1 >= col {
            if left_top.0 == row && left_top.1 == col {
                return (true, Some((right_end.0 - row + 1, right_end.1 - col + 1)));
            } else {
                return (true, None);
            }
        }
        i += 1;
    }
    proof {
        assert(mgs@.skip(n as int) =~= Seq::<MergedRange>::empty());
    }
    (false, None)
}

} // verus!
