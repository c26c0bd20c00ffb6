//! The cached sheet: a decoder's remaining rows materialised into a
//! row-number-keyed store with point lookups, merge-aware lookups, and a
//! batching walk over the full declared row range.
use vstd::prelude::*;

use crate::address::{merged_lookup, is_merged_cell};
use crate::cell::CellValue;
use crate::sheet::{tuple_of_text, SheetStatus, XlsxSheet};
use crate::{ColNum, MergedRange, RowNum, XlsxError, MAX_COL_NUM};

verus! {

/// A materialised sheet: every remaining decoded row, frozen with the
/// observed row range, the resolved column range and the merged ranges.
pub struct CachedSheet {
    /// The decoded rows, keyed by row number (later entries shadow
    /// earlier ones of the same number).
    pub data: Vec<(RowNum, Vec<CellValue>)>,
    /// The sheet's name.
    pub key: String,
    /// The walk's next row number.
    pub current: RowNum,
    /// Whether the decode produced no rows at all.
    pub empty: bool,
    /// Whether the batching walk emits placeholder rows for gaps.
    pub keep_empty: bool,
    /// The chunk size of the batching walk.
    pub iter_batch: usize,
    /// The first row number of the walk's range.
    pub top_nrow: RowNum,
    /// The last decoded row's number; zero when none were decoded.
    pub bottom_nrow: RowNum,
    /// The left column bound, 1-based inclusive.
    pub left_ncol: ColNum,
    /// The right column bound, inclusive, resolved from the sheet's
    /// declared extent when the decoder's bound was open.
    pub right_ncol: ColNum,
    /// The header row, when one was configured and read.
    pub header_row: Option<(RowNum, Vec<CellValue>)>,
    /// The merged ranges.
    pub merged_rects: Vec<MergedRange>,
}

/// The stored row of a row number; the latest entry wins.
pub open spec fn row_lookup(data: Seq<(RowNum, Vec<CellValue>)>, r: RowNum) -> Option<
    Seq<CellValue>,
>
    decreases data.len(),
{
    if data.len() == 0 {
        None
    } else if data.last().0 == r {
        Some(data.last().1@)
    } else {
        row_lookup(data.drop_last(), r)
    }
}

/// The cell at `(row, col)` of a cached sheet: a stored row's first cell
/// sits at the sheet's left column bound, so the column is rebased by it;
/// blank when the row is absent or shorter.
pub open spec fn cell_at(s: CachedSheet, row: RowNum, col: ColNum) -> CellValue {
    match row_lookup(s.data@, row) {
        Some(cells) => {
            if 0 <= col - s.left_ncol < cells.len() {
                cells[col - s.left_ncol]
            } else {
                CellValue::Blank
            }
        },
        None => CellValue::Blank,
    }
}

/// Look a row up in the store; the latest entry wins.
fn lookup_row(data: &Vec<(RowNum, Vec<CellValue>)>, r: RowNum) -> (res: Option<
    &Vec<CellValue>,
>)
    ensures
        match res {
            Some(v) => row_lookup(data@, r) == Some(v@),
            None => row_lookup(data@, r) is None,
        },
{
    let mut i: usize = data.len();
    proof {
        assert(data@.take(data@.len() as int) =~= data@);
    }
    while i > 0
        invariant
            i <= data@.len(),
            row_lookup(data@, r) == row_lookup(data@.take(i as int), r),
        decreases i,
    {
        proof {
            assert(data@.take(i as int).last() == data@[i - 1]);
            assert(data@.take(i as int).drop_last() =~= data@.take(i - 1));
        }
        if data[i - 1].0 == r {
            return Some(&data[i - 1].1);
        }
        i -= 1;
    }
    None
}

impl XlsxSheet {
    /// Freeze the decoder into a cached sheet, given every row the
    /// binding drained from it after the header was consumed.  The row
    /// range starts after the skipped rows (and the header, when one was
    /// read); the open right bound resolves to the declared extent.
    pub fn into_cached(self, rows: Vec<(RowNum, Vec<CellValue>)>) -> (r: Result<
        CachedSheet,
        XlsxError,
    >)
        requires
            self.skip_rows < u32::MAX - 1,
        ensures
            match r {
                Ok(c) => ({
                    let top = (self.skip_rows + (if self.first_row is Some {
                        2u32
                    } else {
                        1u32
                    })) as u32;
                    &&& !self.first_row_is_header
                    &&& (self.currow > 0 || self.status == SheetStatus::Closed)
                    &&& c.data@ == rows@
                    &&& c.key@ == self.key@
                    &&& c.top_nrow == top
                    &&& c.current == top
                    &&& c.bottom_nrow == (if rows@.len() > 0 {
                        rows@.last().0
                    } else {
                        0u32
                    })
                    &&& c.left_ncol == self.left_ncol + 1
                    &&& c.right_ncol == (if self.right_ncol == MAX_COL_NUM {
                        match self.max_size {
                            Some(ms) => ms.1,
                            None => self.right_ncol,
                        }
                    } else {
                        self.right_ncol
                    })
                    &&& c.empty == (self.currow == 0)
                    &&& !c.keep_empty
                    &&& c.iter_batch == self.iter_batch
                    &&& (match self.first_row {
                        Some(h) => c.header_row matches Some(h2) && h2.0 == h.0 && h2.1@
                            == h.1@,
                        None => c.header_row is None,
                    })
                    &&& (match self.merged_rects {
                        Some(m) => c.merged_rects@ == m@,
                        None => c.merged_rects@ == Seq::<MergedRange>::empty(),
                    })
                }),
                Err(e) => e == XlsxError::ConfigurationError && (self.first_row_is_header
                    || self.left_ncol == MAX_COL_NUM || (self.currow == 0 && self.status
                    != SheetStatus::Closed) || (self.merged_rects is None && self.status
                    != SheetStatus::Closed)),
            },
    {
        if self.first_row_is_header {
            // a configured header was never read: the sheet had no rows
            return Err(XlsxError::ConfigurationError);
        }
        if self.left_ncol == MAX_COL_NUM {
            return Err(XlsxError::ConfigurationError);
        }
        let empty = match self.is_empty() {
            Ok(b) => b,
            Err(e) => {
                return Err(e);
            },
        };
        let merged_rects = match self.get_merged_ranges() {
            Ok(m) => m,
            Err(e) => {
                return Err(e);
            },
        };
        let top_nrow = self.skip_rows + (if self.first_row.is_some() {
            2
        } else {
            1
        });
        let bottom_nrow = if rows.len() > 0 {
            rows[rows.len() - 1].0
        } else {
            0
        };
        let right_ncol = if self.right_ncol == MAX_COL_NUM {
            match self.max_size {
                Some(ms) => ms.1,
                None => self.right_ncol,
            }
        } else {
            self.right_ncol
        };
        Ok(
            CachedSheet {
                data: rows,
                key: self.key,
                current: top_nrow,
                empty,
                keep_empty: false,
                iter_batch: self.iter_batch,
                top_nrow,
                bottom_nrow,
                left_ncol: self.left_ncol + 1,
                right_ncol,
                header_row: self.first_row,
                merged_rects,
            },
        )
    }
}

impl CachedSheet {
    /// Choose whether the batching walk emits placeholder empty rows for
    /// gaps in the decoded range.
    pub fn with_empty_rows(self, keep_empty: bool) -> (r: CachedSheet)
        ensures
            r == (CachedSheet { keep_empty, ..self }),
    {
        CachedSheet { keep_empty, ..self }
    }

    /// The sheet's name.
    pub fn sheet_name(&self) -> (r: &String)
        ensures
            r == &self.key,
    {
        &self.key
    }

    /// Whether the decode produced no rows.
    pub fn is_empty(&self) -> (r: bool)
        ensures
            r == self.empty,
    {
        self.empty
    }

    /// The walk's row range, inclusive.
    pub fn row_range(&self) -> (r: (RowNum, RowNum))
        ensures
            r == (self.top_nrow, self.bottom_nrow),
    {
        (self.top_nrow, self.bottom_nrow)
    }

    /// The column range, 1-based inclusive.
    pub fn column_range(&self) -> (r: (ColNum, ColNum))
        ensures
            r == (self.left_ncol, self.right_ncol),
    {
        (self.left_ncol, self.right_ncol)
    }

    /// The header row, when one was read.
    pub fn get_header_row(&self) -> (r: Result<(RowNum, Vec<CellValue>), XlsxError>)
        ensures
            match r {
                Ok(v) => self.header_row matches Some(h) && v.0 == h.0 && v.1@ == h.1@,
                Err(e) => e == XlsxError::ConfigurationError && self.header_row is None,
            },
    {
        match &self.header_row {
            Some(v) => Ok((v.0, crate::sheet::clone_row(&v.1))),
            None => Err(XlsxError::ConfigurationError),
        }
    }

    /// The merged ranges.
    pub fn get_merged_ranges(&self) -> (r: &Vec<MergedRange>)
        ensures
            r == &self.merged_rects,
    {
        &self.merged_rects
    }

    /// Every stored row, keyed by row number.
    pub fn get_all_cells(&self) -> (r: &Vec<(RowNum, Vec<CellValue>)>)
        ensures
            r == &self.data,
    {
        &self.data
    }

    /// The cell at a textual address.  An address outside the recorded
    /// row and column ranges is an error; an absent cell inside them
    /// reads as blank.
    pub fn get_cell_value(&self, addr: &str) -> (r: Result<CellValue, XlsxError>)
        ensures
            match tuple_of_text(addr@) {
                Err(e0) => r matches Err(e) && e == e0,
                Ok(t) => {
                    if self.top_nrow <= t.0 <= self.bottom_nrow && self.left_ncol <= t.1
                        <= self.right_ncol {
                        r matches Ok(v) && v == cell_at(*self, t.0, t.1)
                    } else {
                        r matches Err(e) && e == XlsxError::InvalidAddress
                    }
                },
            },
    {
        let (row, col) = match crate::address::get_tuple_from_ord(addr.as_bytes()) {
            Ok(t) => t,
            Err(e) => {
                return Err(e);
            },
        };
        if row >= self.top_nrow && row <= self.bottom_nrow && col >= self.left_ncol && col
            <= self.right_ncol {
            match lookup_row(&self.data, row) {
                Some(cells) => {
                    if ((col - self.left_ncol) as usize) < cells.len() {
                        Ok(cells[(col - self.left_ncol) as usize].duplicate())
                    } else {
                        Ok(CellValue::Blank)
                    }
                },
                None => Ok(CellValue::Blank),
            }
        } else {
            Err(XlsxError::InvalidAddress)
        }
    }

    /// The cell at a textual address together with its merged-range
    /// membership: whether it lies in a merged range and, at a range's
    /// top-left corner, the range's extent.
    pub fn get_cell_value_with_merge_info(&self, addr: &str) -> (r: Result<
        (CellValue, (bool, Option<(RowNum, ColNum)>)),
        XlsxError,
    >)
        requires
            forall|i: int|
                0 <= i < self.merged_rects@.len() ==> (#[trigger] self.merged_rects@[i]).0.0 >= 1
                    && self.merged_rects@[i].0.1 >= 1,
        ensures
            match tuple_of_text(addr@) {
                Err(e0) => r matches Err(e) && e == e0,
                Ok(t) => {
                    if self.top_nrow <= t.0 <= self.bottom_nrow && self.left_ncol <= t.1
                        <= self.right_ncol {
                        r matches Ok(v) && v.0 == cell_at(*self, t.0, t.1) && v.1
                            == merged_lookup(self.merged_rects@, t.0, t.1)
                    } else {
                        r matches Err(e) && e == XlsxError::InvalidAddress
                    }
                },
            },
    {
        let (row, col) = match crate::address::get_tuple_from_ord(addr.as_bytes()) {
            Ok(t) => t,
            Err(e) => {
                return Err(e);
            },
        };
        if row >= self.top_nrow && row <= self.bottom_nrow && col >= self.left_ncol && col
            <= self.right_ncol {
            let mi = is_merged_cell(&self.merged_rects, row, col);
            match lookup_row(&self.data, row) {
                Some(cells) => {
                    if ((col - self.left_ncol) as usize) < cells.len() {
                        Ok((cells[(col - self.left_ncol) as usize].duplicate(), mi))
                    } else {
                        Ok((CellValue::Blank, mi))
                    }
                },
                None => Ok((CellValue::Blank, mi)),
            }
        } else {
            Err(XlsxError::InvalidAddress)
        }
    }
}

/// What one batching step over the dense row range yields: up to `cap`
/// rows from `cur` through `bottom`, stored rows as they are, gaps as
/// empty placeholder rows when `keep` is set and skipped otherwise; and
/// the walk's next row number.
pub open spec fn walk_rows(
    data: Seq<(RowNum, Vec<CellValue>)>,
    cur: int,
    bottom: int,
    keep: bool,
    cap: int,
) -> (Seq<RowNum>, Seq<Seq<CellValue>>, int)
    decreases bottom - cur + 1,
{
    if cap <= 0 || cur > bottom || cur > u32::MAX {
        (Seq::empty(), Seq::empty(), cur)
    } else {
        match row_lookup(data, cur as u32) {
            Some(d) => {
                let rest = walk_rows(data, cur + 1, bottom, keep, cap - 1);
                (
                    seq![cur as u32] + rest.0,
                    seq![d] + rest.1,
                    rest.2,
                )
            },
            None => {
                if keep {
                    let rest = walk_rows(data, cur + 1, bottom, keep, cap - 1);
                    (
                        seq![cur as u32] + rest.0,
                        seq![Seq::<CellValue>::empty()] + rest.1,
                        rest.2,
                    )
                } else {
                    walk_rows(data, cur + 1, bottom, keep, cap)
                }
            },
        }
    }
}

impl CachedSheet {
    /// The next chunk of the batching walk over the full row range, or
    /// `None` once the range is exhausted.
    pub fn next_batch(&mut self) -> (r: Option<(Vec<RowNum>, Vec<Vec<CellValue>>)>)
        requires
            old(self).bottom_nrow < u32::MAX,
        ensures
            old(self).current > old(self).bottom_nrow ==> (r is None && *final(self) == *old(
                self,
            )),
            old(self).current <= old(self).bottom_nrow ==> ({
                let w = walk_rows(
                    old(self).data@,
                    old(self).current as int,
                    old(self).bottom_nrow as int,
                    old(self).keep_empty,
                    old(self).iter_batch as int,
                );
                &&& (r matches Some(p) && p.0@ == w.0 && p.1.deep_view() == w.1)
                &&& final(self).current == w.2
                &&& *final(self) == (walk_position(*old(self), final(self).current))
            }),
    {
        if self.current > self.bottom_nrow {
            return None;
        }
        let mut nums: Vec<RowNum> = Vec::new();
        let mut rows: Vec<Vec<CellValue>> = Vec::new();
        let ghost w = walk_rows(
            self.data@,
            self.current as int,
            self.bottom_nrow as int,
            self.keep_empty,
            self.iter_batch as int,
        );
        let ghost pre = *old(self);
        proof {
            assert(nums@ + w.0 =~= w.0);
            assert(rows.deep_view() + w.1 =~~= w.1);
        }
        while nums.len() < self.iter_batch && self.current <= self.bottom_nrow
            invariant
                nums@.len() == rows@.len(),
                nums@.len() <= self.iter_batch,
                w == walk_rows(
                    pre.data@,
                    pre.current as int,
                    pre.bottom_nrow as int,
                    pre.keep_empty,
                    pre.iter_batch as int,
                ),
                ({
                    let rest = walk_rows(
                        self.data@,
                        self.current as int,
                        self.bottom_nrow as int,
                        self.keep_empty,
                        (self.iter_batch - nums@.len()) as int,
                    );
                    w.0 == nums@ + rest.0 && w.1 == rows.deep_view() + rest.1 && w.2 == rest.2
                }),
                self.current >= pre.current,
                self.current <= self.bottom_nrow + 1,
                self.bottom_nrow < u32::MAX,
                *self == (walk_position(pre, self.current)),
            decreases (self.bottom_nrow + 1 - self.current) + (self.iter_batch - nums@.len()),
        {
            let ghost onums = nums@;
            let ghost orows = rows.deep_view();
            let ghost ocur = self.current;
            match lookup_row(&self.data, self.current) {
                Some(d) => {
                    nums.push(self.current);
                    rows.push(crate::sheet::clone_row(d));
                    proof {
                        let rest = walk_rows(
                            pre.data@,
                            ocur as int,
                            pre.bottom_nrow as int,
                            pre.keep_empty,
                            (pre.iter_batch - onums.len()) as int,
                        );
                        let rest2 = walk_rows(
                            pre.data@,
                            ocur + 1,
                            pre.bottom_nrow as int,
                            pre.keep_empty,
                            (pre.iter_batch - onums.len()) as int - 1,
                        );
                        assert(rest.0 == seq![ocur] + rest2.0);
                        assert(nums@ =~= onums.push(ocur));
                        assert(nums@ + rest2.0 =~= onums + rest.0);
                        assert(rows.deep_view() =~~= orows.push(rest.1[0]));
                        assert(rows.deep_view() + rest2.1 =~~= orows + rest.1);
                    }
                },
                None => {
                    if self.keep_empty {
                        nums.push(self.current);
                        let e: Vec<CellValue> = Vec::new();
                        rows.push(e);
                        proof {
                            let rest = walk_rows(
                                pre.data@,
                                ocur as int,
                                pre.bottom_nrow as int,
                                pre.keep_empty,
                                (pre.iter_batch - onums.len()) as int,
                            );
                            let rest2 = walk_rows(
                                pre.data@,
                                ocur + 1,
                                pre.bottom_nrow as int,
                                pre.keep_empty,
                                (pre.iter_batch - onums.len()) as int - 1,
                            );
                            assert(nums@ =~= onums.push(ocur));
                            assert(nums@ + rest2.0 =~= onums + rest.0);
                            assert(rows.deep_view() =~~= orows.push(Seq::<CellValue>::empty()));
                            assert(rows.deep_view() + rest2.1 =~~= orows + rest.1);
                        }
                    }
                },
            }
            self.current = self.current + 1;
        }
        proof {
            let rest = walk_rows(
                self.data@,
                self.current as int,
                self.bottom_nrow as int,
                self.keep_empty,
                (self.iter_batch - nums@.len()) as int,
            );
            assert(rest.0 =~= Seq::<RowNum>::empty());
            assert(rest.1 =~= Seq::<Seq<CellValue>>::empty());
            assert(w.0 =~= nums@);
            assert(w.1 =~~= rows.deep_view());
        }
        Some((nums, rows))
    }
}

/// The cached sheet with only its walk position changed.
pub open spec fn walk_position(pre: CachedSheet, current: RowNum) -> CachedSheet {
    CachedSheet { current, ..pre }
}

/// With placeholder rows kept, the batching walk covers its span with
/// consecutive row numbers: each stored row keeps its cells and each
/// absent row appears as an explicit empty entry.
pub proof fn lemma_walk_covers_gaps(
    data: Seq<(RowNum, Vec<CellValue>)>,
    cur: int,
    bottom: int,
    cap: int,
)
    requires
        0 <= cur,
        bottom <= u32::MAX,
        0 <= cap,
    ensures
        ({
            let w = walk_rows(data, cur, bottom, true, cap);
            &&& w.0.len() == w.1.len()
            &&& (cur <= bottom + 1 ==> w.0.len() == (if cap <= bottom + 1 - cur {
                cap
            } else {
                bottom + 1 - cur
            }))
            &&& forall|i: int|
                0 <= i < w.0.len() ==> w.0[i] == cur + i && w.1[i] == (match row_lookup(
                    data,
                    (cur + i) as u32,
                ) {
                    Some(d) => d,
                    None => Seq::<CellValue>::empty(),
                })
        }),
    decreases bottom - cur + 1,
{
    let w = walk_rows(data, cur, bottom, true, cap);
    if cap <= 0 || cur > bottom {
    } else {
        lemma_walk_covers_gaps(data, cur + 1, bottom, cap - 1);
        let rest = walk_rows(data, cur + 1, bottom, true, cap - 1);
        assert forall|i: int|
            0 <= i < w.0.len() implies w.0[i] == cur + i && w.1[i] == (match row_lookup(
                data,
                (cur + i) as u32,
            ) {
                Some(d) => d,
                None => Seq::<CellValue>::empty(),
            }) by {
            if i > 0 {
                assert(w.0[i] == rest.0[i - 1]);
                assert(w.1[i] == rest.1[i - 1]);
            }
        }
    }
}

} // verus!
