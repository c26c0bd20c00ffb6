//! The write-side logic: mapping raw cell values onto the output
//! backend's primitives, and the per-sheet bookkeeping — row cursors,
//! column-name maps and header prepending — that the surrounding binding
//! drives against the actual spreadsheet-writing backend.
use vstd::prelude::*;

use crate::book::{FMT_DATE, FMT_DATETIME, FMT_TIME};
use crate::cell::CellValue;
use crate::serial::Serial;
use crate::{ColNum, RowNum, XlsxError};

verus! {

/// A cell mapped onto the output backend's primitives.
pub enum OutCell {
    /// Nothing is written: a blank or error cell.
    Skip,
    /// A boolean.
    Boolean(bool),
    /// A number, as its decimal text.
    NumberText(String),
    /// A day-serial written as a number under a date, time or datetime
    /// display format (one of the format-kind constants).
    SerialNumber(Serial, u8),
    /// A string.
    Text(String),
}

/// What writing a cell produces.
pub open spec fn out_cell_spec(v: CellValue, r: OutCell) -> bool {
    match v {
        CellValue::Blank => r is Skip,
        CellValue::Error(m) => r is Skip,
        CellValue::Bool(b) => r == OutCell::Boolean(b),
        CellValue::Number(t) => r matches OutCell::NumberText(t2) && t2@ == t@,
        CellValue::Date(se) => r == OutCell::SerialNumber(se, FMT_DATE),
        CellValue::Time(se) => r == OutCell::SerialNumber(se, FMT_TIME),
        CellValue::Datetime(se) => r == OutCell::SerialNumber(se, FMT_DATETIME),
        CellValue::Shared(t) => r matches OutCell::Text(t2) && t2@ == t@,
        CellValue::String(t) => r matches OutCell::Text(t2) && t2@ == t@,
    }
}

/// Map a cell onto the output primitives: blanks and errors are omitted,
/// booleans and strings pass through, numbers keep their text, and
/// day-serials carry their display-format kind.
pub fn cell_to_out(v: &CellValue) -> (r: OutCell)
    ensures
        out_cell_spec(*v, r),
{
    match v {
        CellValue::Blank => OutCell::Skip,
        CellValue::Error(m) => OutCell::Skip,
        CellValue::Bool(b) => OutCell::Boolean(*b),
        CellValue::Number(t) => OutCell::NumberText(t.clone()),
        CellValue::Date(se) => OutCell::SerialNumber(*se, FMT_DATE),
        CellValue::Time(se) => OutCell::SerialNumber(*se, FMT_TIME),
        CellValue::Datetime(se) => OutCell::SerialNumber(*se, FMT_DATETIME),
        CellValue::Shared(t) => OutCell::Text(t.clone()),
        CellValue::String(t) => OutCell::Text(t.clone()),
    }
}

/// The value for a sheet name in a row-cursor list; the latest wins.
pub open spec fn assoc_row(m: Seq<(String, RowNum)>, k: Seq<char>) -> Option<RowNum>
    decreases m.len(),
{
    if m.len() == 0 {
        None
    } else if m.last().0@ == k {
        Some(m.last().1)
    } else {
        assoc_row(m.drop_last(), k)
    }
}

/// The value for a sheet name in a flag list; the latest wins.
pub open spec fn assoc_flag(m: Seq<(String, bool)>, k: Seq<char>) -> Option<bool>
    decreases m.len(),
{
    if m.len() == 0 {
        None
    } else if m.last().0@ == k {
        Some(m.last().1)
    } else {
        assoc_flag(m.drop_last(), k)
    }
}

/// The value for a sheet name in a column-map list; the latest wins.
pub open spec fn assoc_cols(m: Seq<(String, Vec<(String, ColNum)>)>, k: Seq<char>) -> Option<
    Seq<(String, ColNum)>,
>
    decreases m.len(),
{
    if m.len() == 0 {
        None
    } else if m.last().0@ == k {
        Some(m.last().1@)
    } else {
        assoc_cols(m.drop_last(), k)
    }
}

/// The column number for a column name; the latest wins.
pub open spec fn assoc_col(m: Seq<(String, ColNum)>, k: Seq<char>) -> Option<ColNum>
    decreases m.len(),
{
    if m.len() == 0 {
        None
    } else if m.last().0@ == k {
        Some(m.last().1)
    } else {
        assoc_col(m.drop_last(), k)
    }
}

/// The write-side bookkeeping: which sheets exist, how many rows each
/// holds, each sheet's column-name map, and whether its column names are
/// prepended as a header row.  The binding performs the actual writes
/// and drives this state.
pub struct WriterState {
    /// Whether the workbook can still be written (it has not been saved).
    pub open: bool,
    /// Each started sheet's next row index (0-based).
    pub rows: Vec<(String, RowNum)>,
    /// Each sheet's column-name map.
    pub columns: Vec<(String, Vec<(String, ColNum)>)>,
    /// Whether each sheet's column names are written as its first row.
    pub prepends: Vec<(String, bool)>,
}

impl WriterState {
    /// A fresh, open writer with no sheets.
    pub fn new() -> (r: WriterState)
        ensures
            r.open,
            r.rows@ == Seq::<(String, RowNum)>::empty(),
            r.columns@ == Seq::<(String, Vec<(String, ColNum)>)>::empty(),
            r.prepends@ == Seq::<(String, bool)>::empty(),
    {
        WriterState { open: true, rows: Vec::new(), columns: Vec::new(), prepends: Vec::new() }
    }

    /// Whether a sheet has been started.
    pub fn has_sheet(&self, shname: &String) -> (r: bool)
        ensures
            r == (assoc_row(self.rows@, shname@) is Some),
    {
        let mut i: usize = self.rows.len();
        proof {
            assert(self.rows@.take(self.rows@.len() as int) =~= self.rows@);
        }
        while i > 0
            invariant
                i <= self.rows@.len(),
                assoc_row(self.rows@, shname@) == assoc_row(self.rows@.take(i as int), shname@),
            decreases i,
        {
            proof {
                assert(self.rows@.take(i as int).last() == self.rows@[i - 1]);
                assert(self.rows@.take(i as int).drop_last() =~= self.rows@.take(i - 1));
            }
            if crate::text::string_eq(&self.rows[i - 1].0, shname) {
                return true;
            }
            i -= 1;
        }
        false
    }

    /// The next row index of a started sheet.
    pub fn current_row(&self, shname: &String) -> (r: Option<RowNum>)
        ensures
            r == assoc_row(self.rows@, shname@),
    {
        let mut i: usize = self.rows.len();
        proof {
            assert(self.rows@.take(self.rows@.len() as int) =~= self.rows@);
        }
        while i > 0
            invariant
                i <= self.rows@.len(),
                assoc_row(self.rows@, shname@) == assoc_row(self.rows@.take(i as int), shname@),
            decreases i,
        {
            proof {
                assert(self.rows@.take(i as int).last() == self.rows@[i - 1]);
                assert(self.rows@.take(i as int).drop_last() =~= self.rows@.take(i - 1));
            }
            if crate::text::string_eq(&self.rows[i - 1].0, shname) {
                return Some(self.rows[i - 1].1);
            }
            i -= 1;
        }
        None
    }

    /// Register a sheet's column names, each mapped to its 0-based
    /// position, and whether they form a header row.
    pub fn with_columns(&mut self, shname: String, columns: Vec<String>, add_to_top: bool)
        requires
            columns@.len() <= 65535,
        ensures
            final(self).columns@.len() == old(self).columns@.len() + 1,
            final(self).columns@.last().0@ == shname@,
            ({
                let m = final(self).columns@.last().1@;
                m.len() == columns@.len() && forall|i: int|
                    0 <= i < m.len() ==> (#[trigger] m[i]).0@ == columns@[i]@ && m[i].1 == i
            }),
            final(self).prepends@ == old(self).prepends@.push(
                (final(self).prepends@.last().0, add_to_top),
            ),
            final(self).prepends@.last().0@ == shname@,
            final(self).open == old(self).open,
            final(self).rows == old(self).rows,
            final(self).columns@.take(old(self).columns@.len() as int) == old(self).columns@,
    {
        let n = columns.len();
        let mut maps: Vec<(String, ColNum)> = Vec::new();
        let mut i: usize = 0;
        while i < n
            invariant
                i <= n == columns@.len(),
                n <= 65535,
                maps@.len() == i,
                forall|j: int|
                    0 <= j < i ==> (#[trigger] maps@[j]).0@ == columns@[j]@ && maps@[j].1 == j,
            decreases n - i,
        {
            maps.push((columns[i].clone(), i as ColNum));
            i += 1;
        }
        self.columns.push((shname.clone(), maps));
        self.prepends.push((shname, add_to_top));
        proof {
            assert(self.columns@.take(old(self).columns@.len() as int) =~= old(self).columns@);
        }
    }

    /// Start a sheet if needed and say where to write: the sheet's next
    /// row index, and — for a fresh sheet whose columns are prepended —
    /// the header cells the binding must first write at row zero.  Fails
    /// once the workbook has been saved.
    pub fn begin_sheet(&mut self, shname: &String) -> (r: Result<
        (RowNum, Option<Vec<(String, ColNum)>>),
        XlsxError,
    >)
        ensures
            match r {
                Ok(p) => ({
                    &&& old(self).open
                    &&& final(self).open
                    &&& final(self).columns == old(self).columns
                    &&& final(self).prepends == old(self).prepends
                    &&& (match assoc_row(old(self).rows@, shname@) {
                        Some(n) => p.0 == n && p.1 is None && final(self).rows == old(self).rows,
                        None => ({
                            let prepend = assoc_flag(old(self).prepends@, shname@) == Some(true);
                            let cols = assoc_cols(old(self).columns@, shname@);
                            &&& (if prepend && cols is Some {
                                p.0 == 1 && (p.1 matches Some(hdr) && hdr@ == cols.unwrap())
                            } else {
                                p.0 == 0 && p.1 is None
                            })
                            &&& final(self).rows@ == old(self).rows@.push(
                                (final(self).rows@.last().0, p.0),
                            )
                            &&& final(self).rows@.last().0@ == shname@
                        }),
                    })
                }),
                Err(e) => e == XlsxError::ConfigurationError && !old(self).open && *final(self)
                    == *old(self),
            },
    {
        if !self.open {
            return Err(XlsxError::ConfigurationError);
        }
        match self.current_row(shname) {
            Some(n) => Ok((n, None)),
            None => {
                let prepend = match self.flag_of(shname) {
                    Some(b) => b,
                    None => false,
                };
                let cols: Option<Vec<(String, ColNum)>> = if prepend {
                    self.cols_of(shname)
                } else {
                    None
                };
                match cols {
                    Some(hdr) => {
                        self.rows.push((shname.clone(), 1));
                        Ok((1, Some(hdr)))
                    },
                    None => {
                        self.rows.push((shname.clone(), 0));
                        Ok((0, None))
                    },
                }
            },
        }
    }

    /// The prepend flag of a sheet.
    fn flag_of(&self, shname: &String) -> (r: Option<bool>)
        ensures
            r == assoc_flag(self.prepends@, shname@),
    {
        let mut i: usize = self.prepends.len();
        proof {
            assert(self.prepends@.take(self.prepends@.len() as int) =~= self.prepends@);
        }
        while i > 0
            invariant
                i <= self.prepends@.len(),
                assoc_flag(self.prepends@, shname@) == assoc_flag(
                    self.prepends@.take(i as int),
                    shname@,
                ),
            decreases i,
        {
            proof {
                assert(self.prepends@.take(i as int).last() == self.prepends@[i - 1]);
                assert(self.prepends@.take(i as int).drop_last() =~= self.prepends@.take(i - 1));
            }
            if crate::text::string_eq(&self.prepends[i - 1].0, shname) {
                return Some(self.prepends[i - 1].1);
            }
            i -= 1;
        }
        None
    }

    /// A copy of the column map of a sheet.
    fn cols_of(&self, shname: &String) -> (r: Option<Vec<(String, ColNum)>>)
        ensures
            match r {
                Some(v) => assoc_cols(self.columns@, shname@) == Some(v@),
                None => assoc_cols(self.columns@, shname@) is None,
            },
    {
        let mut i: usize = self.columns.len();
        proof {
            assert(self.columns@.take(self.columns@.len() as int) =~= self.columns@);
        }
        while i > 0
            invariant
                i <= self.columns@.len(),
                assoc_cols(self.columns@, shname@) == assoc_cols(
                    self.columns@.take(i as int),
                    shname@,
                ),
            decreases i,
        {
            proof {
                assert(self.columns@.take(i as int).last() == self.columns@[i - 1]);
                assert(self.columns@.take(i as int).drop_last() =~= self.columns@.take(i - 1));
            }
            if crate::text::string_eq(&self.columns[i - 1].0, shname) {
                return Some(copy_cols(&self.columns[i - 1].1));
            }
            i -= 1;
        }
        None
    }

    /// The column number of a column name in a sheet's map, for writing
    /// by name.  Fails when the sheet has no column map or the name is
    /// unknown.
    pub fn column_of(&self, shname: &String, colname: &String) -> (r: Result<ColNum, XlsxError>)
        ensures
            match r {
                Ok(c) => assoc_cols(self.columns@, shname@) matches Some(m) && assoc_col(
                    m,
                    colname@,
                ) == Some(c),
                Err(e) => e == XlsxError::ConfigurationError && (match assoc_cols(
                    self.columns@,
                    shname@,
                ) {
                    Some(m) => assoc_col(m, colname@) is None,
                    None => true,
                }),
            },
    {
        let m = match self.cols_of(shname) {
            Some(m) => m,
            None => {
                return Err(XlsxError::ConfigurationError);
            },
        };
        let mut i: usize = m.len();
        proof {
            assert(m@.take(m@.len() as int) =~= m@);
        }
        while i > 0
            invariant
                i <= m@.len(),
                assoc_cols(self.columns@, shname@) == Some(m@),
                assoc_col(m@, colname@) == assoc_col(m@.take(i as int), colname@),
            decreases i,
        {
            proof {
                assert(m@.take(i as int).last() == m@[i - 1]);
                assert(m@.take(i as int).drop_last() =~= m@.take(i - 1));
            }
            if crate::text::string_eq(&m[i - 1].0, colname) {
                return Ok(m[i - 1].1);
            }
            i -= 1;
        }
        Err(XlsxError::ConfigurationError)
    }

    /// Record that `n` rows were appended to a started sheet.
    pub fn advance_rows(&mut self, shname: &String, n: RowNum) -> (r: Result<RowNum, XlsxError>)
        ensures
            match r {
                Ok(next) => ({
                    &&& assoc_row(old(self).rows@, shname@) matches Some(cur) && next == cur + n
                        && cur + n <= u32::MAX
                    &&& final(self).rows@ == old(self).rows@.push(
                        (final(self).rows@.last().0, next),
                    )
                    &&& final(self).rows@.last().0@ == shname@
                    &&& final(self).open == old(self).open
                    &&& final(self).columns == old(self).columns
                    &&& final(self).prepends == old(self).prepends
                }),
                Err(e) => e == XlsxError::ConfigurationError && *final(self) == *old(self),
            },
    {
        let cur = match self.current_row(shname) {
            Some(c) => c,
            None => {
                return Err(XlsxError::ConfigurationError);
            },
        };
        if cur > u32::MAX - n {
            return Err(XlsxError::ConfigurationError);
        }
        let next = cur + n;
        self.rows.push((shname.clone(), next));
        Ok(next)
    }

    /// Close the writer: after saving, nothing more may be written.
    pub fn mark_saved(&mut self) -> (r: Result<(), XlsxError>)
        ensures
            match r {
                Ok(u) => old(self).open && !final(self).open && *final(self) == (WriterState {
                    open: final(self).open,
                    ..*old(self)
                }),
                Err(e) => e == XlsxError::ConfigurationError && !old(self).open && *final(self)
                    == *old(self),
            },
    {
        if !self.open {
            return Err(XlsxError::ConfigurationError);
        }
        self.open = false;
        Ok(())
    }
}

/// An exact copy of a column map.
fn copy_cols(v: &Vec<(String, ColNum)>) -> (r: Vec<(String, ColNum)>)
    ensures
        r@ == v@,
{
    let n = v.len();
    let mut out: Vec<(String, ColNum)> = Vec::new();
    let mut i: usize = 0;
    while i < n
        invariant
            i <= n == v@.len(),
            out@ == v@.take(i as int),
        decreases n - i,
    {
        out.push((v[i].0.clone(), v[i].1));
        proof {
            assert(out@ =~= v@.take(i + 1));
        }
        i += 1;
    }
    proof {
        assert(v@.take(n as int) =~= v@);
    }
    out
}

} // verus!
