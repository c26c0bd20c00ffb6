//! Row-matching predicates: a set of column constraints, each a 0-based
//! column index with its candidate strings, matched against a decoded
//! row's text by conjunction or disjunction.
use vstd::prelude::*;
use vstd::string::StringSliceAdditionalSpecFns;

use crate::address::{canon_letters, col_value};
use crate::cell::CellValue;
use crate::coerce::cell_string_spec;
use crate::text::{split_pipe, split_pipe_spec};
use crate::ColNum;

verus! {

/// A set of column constraints: each entry pairs a 0-based column index
/// (relative to the decoder's left bound) with its candidate strings.
pub type ColumnChecks = Vec<(usize, Vec<String>)>;

/// Whether some candidate equals the text.
pub open spec fn cands_contain(cands: Seq<String>, t: Seq<char>) -> bool {
    exists|i: int| 0 <= i < cands.len() && cands[i]@ == t
}

/// Whether the row's cell at `i` reads as text equal to one of the
/// candidates.  A missing cell, or one whose text cannot be rendered,
/// matches nothing.
pub open spec fn col_matched(row: Seq<CellValue>, i: int, cands: Seq<String>) -> bool {
    0 <= i < row.len() && match cell_string_spec(row[i]) {
        Ok(t) => cands_contain(cands, t),
        Err(u) => false,
    }
}

/// Whether the row meets the constraints: all of them when `by_and`
/// (vacuously true when there are none), at least one otherwise.
pub open spec fn row_matched(
    row: Seq<CellValue>,
    checks: Seq<(usize, Vec<String>)>,
    by_and: bool,
) -> bool
    decreases checks.len(),
{
    if checks.len() == 0 {
        by_and
    } else {
        let hit = col_matched(row, checks[0].0 as int, checks[0].1@);
        if by_and {
            hit && row_matched(row, checks.skip(1), by_and)
        } else {
            hit || row_matched(row, checks.skip(1), by_and)
        }
    }
}

/// Whether some candidate equals the text, executably.
fn cands_has(cands: &Vec<String>, t: &String) -> (r: bool)
    ensures
        r == cands_contain(cands@, t@),
{
    let n = cands.len();
    let mut i: usize = 0;
    while i < n
        invariant
            i <= n == cands@.len(),
            forall|j: int| 0 <= j < i ==> (#[trigger] cands@[j])@ != t@,
        decreases n - i,
    {
        if crate::text::string_eq(&cands[i], t) {
            return true;
        }
        i += 1;
    }
    false
}

/// Whether one constraint matches the row.
fn one_col_matched(row: &Vec<CellValue>, i: usize, cands: &Vec<String>) -> (r: bool)
    ensures
        r == col_matched(row@, i as int, cands@),
{
    if i >= row.len() {
        return false;
    }
    match crate::coerce::cell_to_string(&row[i]) {
        Ok(o) => {
            match o {
                Some(s) => cands_has(cands, &s),
                None => {
                    proof {
                        assert(false);
                    }
                    false
                },
            }
        },
        Err(e) => false,
    }
}

/// Match the row against the constraints: all of them when `check_by_and`,
/// at least one otherwise.
pub fn is_matched_row(row: &Vec<CellValue>, checks: &ColumnChecks, check_by_and: bool) -> (r:
    bool)
    ensures
        r == row_matched(row@, checks@, check_by_and),
{
    let n = checks.len();
    let mut k: usize = 0;
    proof {
        assert(checks@.skip(0) =~= checks@);
    }
    while k < n
        invariant
            k <= n == checks@.len(),
            row_matched(row@, checks@, check_by_and) == row_matched(
                row@,
                checks@.skip(k as int),
                check_by_and,
            ),
        decreases n - k,
    {
        proof {
            assert(checks@.skip(k as int)[0] == checks@[k as int]);
            assert(checks@.skip(k as int).skip(1) =~= checks@.skip(k + 1));
        }
        let hit = one_col_matched(row, checks[k].0, &checks[k].1);
        if check_by_and {
            if !hit {
                return false;
            }
        } else {
            if hit {
                return true;
            }
        }
        k += 1;
    }
    proof {
        assert(checks@.skip(n as int) =~= Seq::<(usize, Vec<String>)>::empty());
    }
    check_by_and
}

/// The byte sequence of a string's text.
pub open spec fn string_bytes(s: String) -> Seq<u8> {
    vstd::utf8::encode_utf8(s@)
}

/// The constraint set built from `(column letters, pipe-delimited
/// candidates)` pairs: columns outside `(left, right]` are dropped, the
/// rest are rebased to 0-based indices from `left`, and the candidate
/// text is split at every `'|'`.  A column whose letters do not parse
/// counts as column zero, which no bound admits.
pub open spec fn checks_spec(pairs: Seq<(String, String)>, left: u16, right: u16) -> Seq<
    (usize, Seq<Seq<char>>),
>
    decreases pairs.len(),
{
    if pairs.len() == 0 {
        Seq::empty()
    } else {
        let rest = checks_spec(pairs.drop_last(), left, right);
        let raw = col_value(
            canon_letters(crate::address::bytes_as_chars(string_bytes(pairs.last().0))),
        );
        let col = if 0 <= raw <= 65535 {
            raw
        } else {
            0
        };
        if left < col <= right {
            rest.push((((col - left - 1) as usize), split_pipe_spec(pairs.last().1@)))
        } else {
            rest
        }
    }
}

/// Build the constraint set for the given pairs and column bounds.
pub fn build_checks(pairs: &Vec<(String, String)>, left: ColNum, right: ColNum) -> (r:
    ColumnChecks)
    ensures
        r.deep_view() == checks_spec(pairs@, left, right),
{
    let n = pairs.len();
    let mut out: ColumnChecks = Vec::new();
    let mut i: usize = 0;
    proof {
        assert(pairs@.take(0) =~= Seq::<(String, String)>::empty());
        assert(out.deep_view() =~= checks_spec(pairs@.take(0), left, right));
    }
    while i < n
        invariant
            i <= n == pairs@.len(),
            out.deep_view() == checks_spec(pairs@.take(i as int), left, right),
        decreases n - i,
    {
        let ghost odv = out.deep_view();
        proof {
            assert(pairs@.take(i + 1).drop_last() =~= pairs@.take(i as int));
            assert(pairs@.take(i + 1).last() == pairs@[i as int]);
        }
        let col: u16 = match crate::address::get_num_from_ord(pairs[i].0.as_str().as_bytes()) {
            Ok(c) => c,
            Err(e) => 0,
        };
        if left < col && col <= right {
            let cands = split_pipe(pairs[i].1.as_str());
            out.push(((col - left - 1) as usize, cands));
            proof {
                assert(out.deep_view() =~= odv.push(
                    (((col - left - 1) as usize), split_pipe_spec(pairs@[i as int].1@)),
                ));
                assert(out.deep_view() =~= checks_spec(pairs@.take(i + 1), left, right));
            }
        } else {
            proof {
                assert(out.deep_view() =~= checks_spec(pairs@.take(i + 1), left, right));
            }
        }
        i += 1;
    }
    proof {
        assert(pairs@.take(n as int) =~= pairs@);
    }
    out
}

/// The index of the first constraint the row fails, if any: the witness
/// behind a failed conjunctive match.
pub open spec fn first_unmatched(row: Seq<CellValue>, checks: Seq<(usize, Vec<String>)>) -> Option<
    int,
>
    decreases checks.len(),
{
    if checks.len() == 0 {
        None
    } else if !col_matched(row, checks[0].0 as int, checks[0].1@) {
        Some(0)
    } else {
        match first_unmatched(row, checks.skip(1)) {
            Some(k) => Some(k + 1),
            None => None,
        }
    }
}

/// A conjunctive match succeeds exactly when no constraint fails.
pub proof fn lemma_matched_iff_no_unmatched(row: Seq<CellValue>, checks: Seq<(usize, Vec<String>)>)
    ensures
        row_matched(row, checks, true) <==> first_unmatched(row, checks) is None,
    decreases checks.len(),
{
    if checks.len() > 0 {
        lemma_matched_iff_no_unmatched(row, checks.skip(1));
    }
}

/// Where a scan found the first failing constraint, `first_unmatched`
/// agrees.
proof fn lemma_first_unmatched_at(row: Seq<CellValue>, checks: Seq<(usize, Vec<String>)>, k: int)
    requires
        0 <= k <= checks.len(),
        forall|j: int|
            0 <= j < k ==> col_matched(row, (#[trigger] checks[j]).0 as int, checks[j].1@),
        k == checks.len() || !col_matched(row, checks[k].0 as int, checks[k].1@),
    ensures
        first_unmatched(row, checks) == if k == checks.len() {
            None::<int>
        } else {
            Some(k)
        },
    decreases checks.len(),
{
    if checks.len() == 0 {
    } else if k == 0 {
    } else {
        let t = checks.skip(1);
        assert(forall|j: int| 0 <= j < k - 1 ==> #[trigger] t[j] == checks[j + 1]);
        assert(k - 1 == t.len() || t[k - 1] == checks[k]);
        lemma_first_unmatched_at(row, t, k - 1);
    }
}

/// Find the first constraint the row fails, with its index.
pub fn find_unmatched(row: &Vec<CellValue>, checks: &ColumnChecks) -> (r: Option<usize>)
    ensures
        match r {
            Some(k) => k < checks@.len() && first_unmatched(row@, checks@) == Some(k as int),
            None => first_unmatched(row@, checks@) is None,
        },
{
    let n = checks.len();
    let mut k: usize = 0;
    while k < n
        invariant
            k <= n == checks@.len(),
            forall|j: int|
                0 <= j < k ==> col_matched(row@, (#[trigger] checks@[j]).0 as int, checks@[j].1@),
        decreases n - k,
    {
        if !one_col_matched(row, checks[k].0, &checks[k].1) {
            proof {
                lemma_first_unmatched_at(row@, checks@, k as int);
            }
            return Some(k);
        }
        k += 1;
    }
    proof {
        lemma_first_unmatched_at(row@, checks@, n as int);
    }
    None
}

} // verus!
