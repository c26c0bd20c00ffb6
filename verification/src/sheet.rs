//! The streaming sheet decoder: a state machine over one worksheet
//! part's XML events, yielding one decoded row at a time.  The
//! surrounding binding reads events from the part and feeds them to
//! [`XlsxSheet::advance`] until a row, or the end, comes out.
//!
//! States: `New` (before `sheetData`), `Active` (between rows),
//! `ReadingCell` and `SkippingCell` (inside a cell), and `Closed`.  Once
//! `Closed`, no further rows are produced.
use vstd::prelude::*;

use crate::book::{assoc_get_u32, assoc_get_u8, assoc_u32, XlsxBook, FMT_DATE, FMT_DATETIME,
    FMT_DEFAULT, FMT_TIME};
use crate::cell::CellValue;
use crate::matcher::{build_checks, checks_spec, find_unmatched, first_unmatched,
    is_matched_row, row_matched, ColumnChecks};
use crate::serial::Serial;
use crate::text::{all_digits, digits_val, str_eq};
use crate::xml::{find_attr, spec_attr, XmlEvent};
use crate::{ColNum, MergedRange, RowNum, XlsxError, MAX_COL_NUM};

verus! {

/// The decoder's position in the worksheet part.
#[derive(Debug, Clone, Copy, PartialEq, Eq, Structural)]
pub enum SheetStatus {
    /// The part is exhausted, or reading was stopped; no more rows come.
    Closed,
    /// Before the `sheetData` element.
    New,
    /// Inside `sheetData`, between cells.
    Active,
    /// Inside a cell whose value is wanted.
    ReadingCell,
    /// Inside a cell that is being skipped.
    SkippingCell,
}

/// A cell's declared type code.
#[derive(Debug, Clone, Copy, PartialEq, Eq, Structural)]
pub enum CellType {
    /// `n`: numeric (the default).
    Numeric,
    /// `s`: a shared-string reference.
    SharedRef,
    /// `b`: boolean.
    Boolean,
    /// `d`: an ISO date string.
    DateText,
    /// `e`: an error.
    ErrorText,
    /// `str`: a formula string.
    FormulaText,
    /// `inlineStr`: an inline string.
    InlineText,
    /// Any other code.
    Other,
}

/// What one fed event produced.
#[derive(Debug)]
pub enum Step {
    /// Nothing yet; feed the next event.
    NeedMore,
    /// A decoded row: its 1-based row number and its cells.
    Row(RowNum, Vec<CellValue>),
    /// No more rows will come.
    End,
}

/// The streaming decoder for one worksheet part.
pub struct XlsxSheet {
    /// The sheet's name.
    pub key: String,
    /// The machine's state.
    pub status: SheetStatus,
    /// The current 1-based row number.
    pub currow: RowNum,
    /// The batch size for batching iteration.
    pub iter_batch: usize,
    /// Rows at or below this number are skipped.
    pub skip_rows: u32,
    /// The declared sheet extent, from the `dimension` element.
    pub max_size: Option<(RowNum, ColNum)>,
    /// The 0-based left column bound (columns at or below it are cut).
    pub left_ncol: ColNum,
    /// The right column bound, inclusive; `MAX_COL_NUM` means unbounded.
    pub right_ncol: ColNum,
    /// Whether the next produced row is the header.
    pub first_row_is_header: bool,
    /// The captured header row.
    pub first_row: Option<(RowNum, Vec<CellValue>)>,
    /// The extracted merged ranges, once scanned.
    pub merged_rects: Option<Vec<MergedRange>>,
    /// An in-progress merged-range scan: the declared count and the
    /// ranges collected so far.
    pub merge_scan: Option<(usize, Vec<MergedRange>)>,
    /// Rows are dropped until one matches this (conjunctive) predicate;
    /// the matching row is kept and the predicate disabled.
    pub skip_until: Option<ColumnChecks>,
    /// Rows matching this predicate are dropped.
    pub skip_matched: Option<ColumnChecks>,
    /// Whether `skip_matched` is conjunctive.
    pub skip_matched_check_by_and: bool,
    /// Decoding stops just before a row matching this (conjunctive)
    /// predicate; the matching row is discarded.
    pub read_before: Option<ColumnChecks>,
    /// The header row must match this (conjunctive) predicate.
    pub header_check: Option<ColumnChecks>,
    /// After a failed header validation: the first unmatched constraint,
    /// as its 0-based column index and candidate strings.
    pub header_fail: Option<(usize, Vec<String>)>,
    /// Addresses whose values are captured while scanning rows up to the
    /// header.
    pub addr_captures: Option<Vec<String>>,
    /// The captured values, keyed by address.
    pub vals_captures: Vec<(String, CellValue)>,
    /// The row being assembled.
    pub row_value: Vec<CellValue>,
    /// The 1-based index (relative to `left_ncol`) of the next cell to
    /// append.
    pub col_index: u32,
    /// The current cell's 1-based column number.
    pub cur_col: ColNum,
    /// The current cell's textual address.
    pub cell_addr: String,
    /// The current cell's type code.
    pub cell_type: CellType,
    /// The current cell's numeric-format id.
    pub num_fmt_id: u32,
    /// The name of the innermost opened element.
    pub prev_head: String,
    /// The width to pad emitted rows to, when the right bound is fixed.
    pub row_cap: ColNum,
}

impl XlsxBook {
    /// Open the named sheet: look its worksheet part up and build a fresh
    /// decoder for it.  The shared-string table must have been loaded
    /// first.  Returns the part's path, from which the binding feeds the
    /// decoder events.
    ///
    /// `iter_batch` is the batching size, `skip_rows` the number of
    /// leading rows to skip, `left_ncol` and `right_ncol` the 1-based
    /// inclusive column bounds (`MAX_COL_NUM` right bound means "to each
    /// row's last cell"), and `first_row_is_header` marks the first
    /// produced row as the header.
    pub fn get_sheet_by_name(
        &self,
        sht_name: &String,
        iter_batch: usize,
        skip_rows: u32,
        left_ncol: ColNum,
        right_ncol: ColNum,
        first_row_is_header: bool,
    ) -> (r: Result<(String, XlsxSheet), XlsxError>)
        requires
            left_ncol >= 1,
        ensures
            match r {
                Ok(p) => ({
                    &&& self.ini_share
                    &&& crate::book::assoc_str(self.map_sheet.deep_view(), sht_name@)
                        == Some(p.0@)
                    &&& p.1.key@ == sht_name@
                    &&& p.1.status == SheetStatus::New
                    &&& p.1.currow == 0
                    &&& p.1.iter_batch == iter_batch
                    &&& p.1.skip_rows == skip_rows
                    &&& p.1.left_ncol == left_ncol - 1
                    &&& p.1.right_ncol == right_ncol
                    &&& p.1.first_row_is_header == first_row_is_header
                    &&& p.1.first_row is None
                    &&& p.1.max_size is None
                    &&& p.1.merged_rects is None
                    &&& p.1.merge_scan is None
                    &&& p.1.skip_until is None
                    &&& p.1.skip_matched is None
                    &&& p.1.read_before is None
                    &&& p.1.header_check is None
                    &&& p.1.header_fail is None
                    &&& p.1.addr_captures is None
                    &&& p.1.vals_captures@ == Seq::<(String, CellValue)>::empty()
                    &&& p.1.row_value@ == Seq::<CellValue>::empty()
                }),
                Err(e) => ({
                    if !self.ini_share {
                        e == XlsxError::ConfigurationError
                    } else {
                        e == XlsxError::SheetNotFound && crate::book::assoc_str(
                            self.map_sheet.deep_view(),
                            sht_name@,
                        ) is None
                    }
                }),
            },
    {
        if !self.ini_share {
            return Err(XlsxError::ConfigurationError);
        }
        let path = match crate::book::assoc_get_str(&self.map_sheet, sht_name.as_str()) {
            Some(p) => p.clone(),
            None => {
                return Err(XlsxError::SheetNotFound);
            },
        };
        let sheet = XlsxSheet {
            key: sht_name.clone(),
            status: SheetStatus::New,
            currow: 0,
            iter_batch,
            skip_rows,
            max_size: None,
            left_ncol: left_ncol - 1,
            right_ncol,
            first_row_is_header,
            first_row: None,
            merged_rects: None,
            merge_scan: None,
            skip_until: None,
            skip_matched: None,
            skip_matched_check_by_and: true,
            read_before: None,
            header_check: None,
            header_fail: None,
            addr_captures: None,
            vals_captures: Vec::new(),
            row_value: Vec::new(),
            col_index: 1,
            cur_col: 0,
            cell_addr: String::new(),
            cell_type: CellType::Numeric,
            num_fmt_id: 0,
            prev_head: String::new(),
            row_cap: 0,
        };
        Ok((path, sheet))
    }
}

impl XlsxSheet {
    /// The sheet's name.
    pub fn sheet_name(&self) -> (r: &String)
        ensures
            r == &self.key,
    {
        &self.key
    }

    /// The configured column range, 1-based and inclusive.
    pub fn column_range(&self) -> (r: (ColNum, ColNum))
        requires
            self.left_ncol < MAX_COL_NUM,
        ensures
            r.0 == self.left_ncol + 1,
            r.1 == self.right_ncol,
    {
        (self.left_ncol + 1, self.right_ncol)
    }

    /// Whether the sheet held no rows: callable only once a row has been
    /// read or the decode has closed.
    pub fn is_empty(&self) -> (r: Result<bool, XlsxError>)
        ensures
            match r {
                Ok(b) => b == (self.currow == 0 && self.status == SheetStatus::Closed) && (
                self.currow > 0 || self.status == SheetStatus::Closed),
                Err(e) => e == XlsxError::ConfigurationError && self.currow == 0 && self.status
                    != SheetStatus::Closed,
            },
    {
        if self.currow > 0 {
            Ok(false)
        } else if self.status == SheetStatus::Closed {
            Ok(true)
        } else {
            Err(XlsxError::ConfigurationError)
        }
    }

    /// Drop all leading rows until one matches the given constraints
    /// (conjunctively); that row is kept.  Call before reading.
    pub fn with_skip_until(&mut self, checks: &Vec<(String, String)>)
        ensures
            ({
                let cs = checks_spec(checks@, old(self).left_ncol, old(self).right_ncol);
                &&& (cs.len() > 0 ==> (final(self).skip_until matches Some(c) && c.deep_view()
                    == cs))
                &&& (cs.len() == 0 ==> final(self).skip_until is None)
                &&& *final(self) == (XlsxSheet { skip_until: final(self).skip_until, ..*old(self) })
            }),
    {
        let maps = build_checks(checks, self.left_ncol, self.right_ncol);
        if maps.len() > 0 {
            self.skip_until = Some(maps);
        } else {
            self.skip_until = None;
        }
    }

    /// Drop every row matching the given constraints, conjunctively when
    /// `check_by_and` and disjunctively otherwise.  Call before reading.
    /// The header row, when one is configured, is exempt.
    pub fn with_skip_matched(&mut self, checks: &Vec<(String, String)>, check_by_and: bool)
        ensures
            ({
                let cs = checks_spec(checks@, old(self).left_ncol, old(self).right_ncol);
                &&& (cs.len() > 0 ==> (final(self).skip_matched matches Some(c) && c.deep_view()
                    == cs && final(self).skip_matched_check_by_and == check_by_and))
                &&& (cs.len() == 0 ==> final(self).skip_matched is None
                    && final(self).skip_matched_check_by_and == old(
                    self,
                ).skip_matched_check_by_and)
                &&& *final(self) == (XlsxSheet {
                    skip_matched: final(self).skip_matched,
                    skip_matched_check_by_and: final(self).skip_matched_check_by_and,
                    ..*old(self)
                })
            }),
    {
        let maps = build_checks(checks, self.left_ncol, self.right_ncol);
        if maps.len() > 0 {
            self.skip_matched = Some(maps);
            self.skip_matched_check_by_and = check_by_and;
        } else {
            self.skip_matched = None;
        }
    }

    /// Stop just before the first row matching the given constraints
    /// (conjunctively); that row is discarded.  Call before reading.
    pub fn with_read_before(&mut self, checks: &Vec<(String, String)>)
        ensures
            ({
                let cs = checks_spec(checks@, old(self).left_ncol, old(self).right_ncol);
                &&& (cs.len() > 0 ==> (final(self).read_before matches Some(c) && c.deep_view()
                    == cs))
                &&& (cs.len() == 0 ==> final(self).read_before is None)
                &&& *final(self) == (XlsxSheet {
                    read_before: final(self).read_before,
                    ..*old(self)
                })
            }),
    {
        let maps = build_checks(checks, self.left_ncol, self.right_ncol);
        if maps.len() > 0 {
            self.read_before = Some(maps);
        } else {
            self.read_before = None;
        }
    }

    /// Require the header row to match the given constraints
    /// (conjunctively); a mismatch makes reading the header an error.
    /// Call before reading.
    pub fn with_header_check(&mut self, checks: &Vec<(String, String)>)
        ensures
            ({
                let cs = checks_spec(checks@, old(self).left_ncol, old(self).right_ncol);
                &&& (cs.len() > 0 ==> (final(self).header_check matches Some(c) && c.deep_view()
                    == cs))
                &&& (cs.len() == 0 ==> final(self).header_check is None)
                &&& *final(self) == (XlsxSheet {
                    header_check: final(self).header_check,
                    ..*old(self)
                })
            }),
    {
        let maps = build_checks(checks, self.left_ncol, self.right_ncol);
        if maps.len() > 0 {
            self.header_check = Some(maps);
        } else {
            self.header_check = None;
        }
    }

    /// Capture the values of the given literal addresses while scanning
    /// rows up to and including the header.  Call before reading.
    pub fn with_capture_vals(&mut self, captures: Vec<String>)
        ensures
            captures@.len() > 0 ==> final(self).addr_captures == Some(captures),
            captures@.len() == 0 ==> final(self).addr_captures is None,
            final(self).vals_captures@ == Seq::<(String, CellValue)>::empty(),
            *final(self) == (XlsxSheet {
                addr_captures: final(self).addr_captures,
                vals_captures: final(self).vals_captures,
                ..*old(self)
            }),
    {
        if captures.len() > 0 {
            self.addr_captures = Some(captures);
        } else {
            self.addr_captures = None;
        }
        self.vals_captures = Vec::new();
    }

    /// Whether reading captured values must first consume the header.
    pub fn captures_pending_header(&self) -> (r: bool)
        ensures
            r == (self.addr_captures is Some && self.first_row_is_header),
    {
        self.addr_captures.is_some() && self.first_row_is_header
    }

    /// The captured values, keyed by address.  Requires capturing to be
    /// finished: either none was configured, or the header (which ends
    /// capturing) has been consumed.
    pub fn get_captured_vals(&self) -> (r: Result<&Vec<(String, CellValue)>, XlsxError>)
        ensures
            match r {
                Ok(v) => v == &self.vals_captures && self.addr_captures is None,
                Err(e) => e == XlsxError::ConfigurationError && self.addr_captures is Some,
            },
    {
        if self.addr_captures.is_none() {
            Ok(&self.vals_captures)
        } else {
            Err(XlsxError::ConfigurationError)
        }
    }

    /// Whether the next produced row will be taken as the header.
    pub fn header_pending(&self) -> (r: bool)
        ensures
            r == self.first_row_is_header,
    {
        self.first_row_is_header
    }

    /// The first header constraint the header row failed, recorded when
    /// header validation rejects the row.
    pub fn header_check_failure(&self) -> (r: &Option<(usize, Vec<String>)>)
        ensures
            r == &self.header_fail,
    {
        &self.header_fail
    }

    /// The header row, once it has been consumed.
    pub fn get_header_row(&self) -> (r: Result<(RowNum, Vec<CellValue>), XlsxError>)
        ensures
            match r {
                Ok(v) => self.first_row matches Some(h) && v.0 == h.0 && v.1@ == h.1@,
                Err(e) => e == XlsxError::ConfigurationError && self.first_row is None,
            },
    {
        match &self.first_row {
            Some(v) => Ok((v.0, clone_row(&v.1))),
            None => Err(XlsxError::ConfigurationError),
        }
    }
}

/// An exact copy of a list of strings.
fn copy_strings(v: &Vec<String>) -> (r: Vec<String>)
    ensures
        r.deep_view() == v.deep_view(),
{
    let n = v.len();
    let mut out: Vec<String> = Vec::new();
    let mut i: usize = 0;
    while i < n
        invariant
            i <= n == v@.len(),
            out@.len() == i,
            forall|j: int| 0 <= j < i ==> (#[trigger] out@[j])@ == v@[j]@,
        decreases n - i,
    {
        out.push(v[i].clone());
        i += 1;
    }
    proof {
        assert(out.deep_view() =~~= v.deep_view());
    }
    out
}

/// An exact copy of a row of cells.
pub fn clone_row(v: &Vec<CellValue>) -> (r: Vec<CellValue>)
    ensures
        r@ == v@,
{
    let n = v.len();
    let mut out: Vec<CellValue> = Vec::new();
    let mut i: usize = 0;
    while i < n
        invariant
            i <= n == v@.len(),
            out@ == v@.take(i as int),
        decreases n - i,
    {
        out.push(v[i].duplicate());
        proof {
            assert(out@ =~= v@.take(i + 1));
        }
        i += 1;
    }
    proof {
        assert(v@.take(n as int) =~= v@);
    }
    out
}

// ---------------------------------------------------- the decode model

/// The shape of a cell value, with text as character sequences: the
/// payload-level model of [`CellValue`].
pub enum CellModel {
    /// An empty cell.
    MBlank,
    /// A boolean cell.
    MBool(bool),
    /// A numeric cell's raw text.
    MNumber(Seq<char>),
    /// A date serial.
    MDate(Serial),
    /// A time serial.
    MTime(Serial),
    /// A datetime serial.
    MDatetime(Serial),
    /// A resolved shared string.
    MShared(Seq<char>),
    /// An inline or formula string.
    MString(Seq<char>),
    /// An error string.
    MError(Seq<char>),
}

/// The model of a cell value.
pub open spec fn cell_model(v: CellValue) -> CellModel {
    match v {
        CellValue::Blank => CellModel::MBlank,
        CellValue::Bool(b) => CellModel::MBool(b),
        CellValue::Number(t) => CellModel::MNumber(t@),
        CellValue::Date(se) => CellModel::MDate(se),
        CellValue::Time(se) => CellModel::MTime(se),
        CellValue::Datetime(se) => CellModel::MDatetime(se),
        CellValue::Shared(t) => CellModel::MShared(t@),
        CellValue::String(t) => CellModel::MString(t@),
        CellValue::Error(t) => CellModel::MError(t@),
    }
}

/// The cell type code denoted by a `t` attribute; absent means numeric.
pub open spec fn celltype_of(t: Option<Seq<char>>) -> CellType {
    match t {
        None => CellType::Numeric,
        Some(v) => {
            if v == "n"@ {
                CellType::Numeric
            } else if v == "s"@ {
                CellType::SharedRef
            } else if v == "b"@ {
                CellType::Boolean
            } else if v == "d"@ {
                CellType::DateText
            } else if v == "e"@ {
                CellType::ErrorText
            } else if v == "str"@ {
                CellType::FormulaText
            } else if v == "inlineStr"@ {
                CellType::InlineText
            } else {
                CellType::Other
            }
        },
    }
}

/// Decode text content under a cell, per the cell's type code, the
/// element it sits under (`v` or `t`), the cell's format kind, and the
/// shared-string table.  A plain numeric cell keeps its raw text, which
/// must read as a number; one classified as a date, time or datetime must
/// also fit as a day-serial.  A shared reference that does not index the
/// table, or numeric text that is not a number, is a hard error.
pub open spec fn decode_cell_spec(
    ty: CellType,
    prev: Seq<char>,
    fmt: u8,
    text: Seq<char>,
    shared: Seq<Seq<char>>,
) -> Result<CellModel, XlsxError> {
    if ty == CellType::InlineText && prev == "t"@ {
        Ok(CellModel::MString(text))
    } else if prev == "v"@ {
        match ty {
            CellType::SharedRef => {
                if crate::book::attr_u32_ok(text) && digits_val(text) < shared.len() {
                    Ok(CellModel::MShared(shared[digits_val(text)]))
                } else {
                    Err(XlsxError::MalformedXml)
                }
            },
            CellType::Numeric => {
                if fmt == FMT_DATE || fmt == FMT_DATETIME || fmt == FMT_TIME {
                    if crate::coerce::number_ok(text) {
                        let se = crate::coerce::serial_of_text(text);
                        if fmt == FMT_DATE {
                            Ok(CellModel::MDate(se))
                        } else if fmt == FMT_DATETIME {
                            Ok(CellModel::MDatetime(se))
                        } else {
                            Ok(CellModel::MTime(se))
                        }
                    } else {
                        Err(XlsxError::MalformedXml)
                    }
                } else if crate::serial::valid_number(text) {
                    Ok(CellModel::MNumber(text))
                } else {
                    Err(XlsxError::MalformedXml)
                }
            },
            CellType::Boolean => Ok(
                CellModel::MBool(crate::book::attr_u32_ok(text) && digits_val(text) == 1),
            ),
            CellType::DateText => Ok(CellModel::MString(text)),
            CellType::ErrorText => Ok(CellModel::MError(text)),
            CellType::FormulaText => Ok(CellModel::MString(text)),
            _ => Ok(CellModel::MBlank),
        }
    } else {
        Ok(CellModel::MError("Unknown cell type"@))
    }
}

/// The format kind of a format id: the classification table's entry, or
/// the default.
pub open spec fn fmt_of(fmts: Seq<(u32, u8)>, id: u32) -> u8 {
    match assoc_u32(fmts, id) {
        Some(k) => k,
        None => FMT_DEFAULT,
    }
}

/// Whether the address list holds the address.
pub open spec fn has_addr(set: Seq<Seq<char>>, a: Seq<char>) -> bool {
    exists|i: int| 0 <= i < set.len() && set[i] == a
}

/// The list with the first occurrence of `a` removed.
pub open spec fn remove_first(set: Seq<Seq<char>>, a: Seq<char>) -> Seq<Seq<char>>
    decreases set.len(),
{
    if set.len() == 0 {
        Seq::empty()
    } else if set[0] == a {
        set.skip(1)
    } else {
        seq![set[0]] + remove_first(set.skip(1), a)
    }
}


/// What feeding text content does: outside `ReadingCell` under a `v` or
/// `t` element nothing changes; inside it the decoded value (per
/// [`decode_cell_spec`]) is appended after blank backfill for any column
/// gap, and a pending address capture is served.
pub open spec fn text_post(
    pre: XlsxSheet,
    post: XlsxSheet,
    r: Result<Step, XlsxError>,
    book: XlsxBook,
    text: Seq<char>,
) -> bool {
    &&& ((pre.status != SheetStatus::ReadingCell || (pre.prev_head@ != "v"@ && pre.prev_head@
        != "t"@)) ==> (r matches Ok(s) && s is NeedMore && post == pre))
    &&& ((pre.status == SheetStatus::ReadingCell && (pre.prev_head@ == "v"@ || pre.prev_head@
        == "t"@)) ==> ({
        let fmt = fmt_of(book.datetime_fmts@, pre.num_fmt_id);
        match decode_cell_spec(pre.cell_type, pre.prev_head@, fmt, text, book.str_share.deep_view()) {
            Err(e) => r matches Err(e2) && e2 == e && post == pre,
            Ok(m) => ({
                let oldlen = pre.row_value@.len() as int;
                let gap = if pre.col_index + pre.left_ncol < pre.cur_col {
                    pre.cur_col - pre.left_ncol - pre.col_index
                } else {
                    0int
                };
                &&& r matches Ok(s) && s is NeedMore
                &&& post.row_value@.len() == oldlen + gap + 1
                &&& post.row_value@.take(oldlen) == pre.row_value@
                &&& (forall|j: int| oldlen <= j < oldlen + gap ==> post.row_value@[j] is Blank)
                &&& cell_model(post.row_value@.last()) == m
                &&& post.col_index == if pre.col_index + gap + 1 <= u32::MAX {
                    (pre.col_index + gap + 1) as u32
                } else {
                    u32::MAX as u32
                }
                &&& (match pre.addr_captures {
                    Some(set) => {
                        if has_addr(set.deep_view(), pre.cell_addr@) {
                            &&& (post.addr_captures matches Some(s2) && s2.deep_view()
                                == remove_first(set.deep_view(), pre.cell_addr@))
                            &&& post.vals_captures@.len() == pre.vals_captures@.len() + 1
                            &&& post.vals_captures@.take(pre.vals_captures@.len() as int)
                                == pre.vals_captures@
                            &&& post.vals_captures@.last().0@ == pre.cell_addr@
                            &&& cell_model(post.vals_captures@.last().1) == m
                        } else {
                            post.addr_captures == pre.addr_captures && post.vals_captures
                                == pre.vals_captures
                        }
                    },
                    None => post.addr_captures is None && post.vals_captures == pre.vals_captures,
                })
                &&& post == (XlsxSheet {
                    row_value: post.row_value,
                    col_index: post.col_index,
                    addr_captures: post.addr_captures,
                    vals_captures: post.vals_captures,
                    ..pre
                })
            }),
        }
    }))
}


/// What feeding one event does: an active merged-range scan takes the
/// event ([`merge_event_post`]); otherwise opening, self-closing, text
/// and closing events behave per [`start_post`], [`empty_post`],
/// [`text_post`] and [`end_post`], and the end of the part closes the
/// decode.
pub open spec fn advance_post(
    pre: XlsxSheet,
    post: XlsxSheet,
    r: Result<Step, XlsxError>,
    book: XlsxBook,
    ev: XmlEvent,
) -> bool {
    &&& (ev is Eof ==> post.status == SheetStatus::Closed)
    &&& ((ev is Eof && pre.merge_scan is None) ==> (r matches Ok(s) && s is End
                && post == (XlsxSheet { status: post.status, ..pre })))
    &&& (pre.merge_scan is None ==> (match ev {
                XmlEvent::Start { name: n2, attrs: a2 } => start_post(
                    pre,
                    post,
                    r,
                    book,
                    n2@,
                    a2@,
                ),
                XmlEvent::Empty { name: n2, attrs: a2 } => empty_post(
                    pre,
                    post,
                    r,
                    n2@,
                    a2@,
                ),
                XmlEvent::Text { text: t2 } => text_post(pre, post, r, book, t2@),
                XmlEvent::End { name: n2 } => end_post(pre, post, r, n2@),
                XmlEvent::Eof => r matches Ok(s) && s is End,
            }))
    &&& ((pre.merge_scan is Some && !(ev is Eof)) ==> merge_event_post(
                pre,
                post,
                r,
                ev,
            ))
    &&& (ev is Eof ==> (pre.merge_scan matches Some(p) ==> ({
                &&& post.status == SheetStatus::Closed
                &&& post.merge_scan is None
                &&& (if p.1@.len() == p.0 {
                    &&& r matches Ok(s) && s is End
                    &&& (post.merged_rects matches Some(m) && m@ == p.1@)
                    &&& post == (XlsxSheet {
                        status: post.status,
                        merge_scan: post.merge_scan,
                        merged_rects: post.merged_rects,
                        ..pre
                    })
                } else {
                    r matches Err(e) && e == XlsxError::MergeCountMismatch
                        && post.merged_rects is None
                })
            })))
}

impl XlsxSheet {
    /// Feed text content to the decoder.  In `ReadingCell` under a `v` or
    /// `t` element this decodes the cell's value, backfills any column
    /// gap with blanks, serves a pending address capture, and appends the
    /// value; everywhere else it does nothing.
    pub fn handle_text(&mut self, book: &XlsxBook, text: &String) -> (r: Result<Step, XlsxError>)
        ensures
            text_post(*old(self), *final(self), r, *book, text@),
    {
        if !(self.status == SheetStatus::ReadingCell) {
            return Ok(Step::NeedMore);
        }
        let pv = str_eq(self.prev_head.as_str(), "v");
        let pt = str_eq(self.prev_head.as_str(), "t");
        if !pv && !pt {
            return Ok(Step::NeedMore);
        }
        let fmt: u8 = match assoc_get_u8(&book.datetime_fmts, self.num_fmt_id) {
            Some(k) => k,
            None => FMT_DEFAULT,
        };
        let cel_val: CellValue = if self.cell_type == CellType::InlineText && pt {
            CellValue::String(text.clone())
        } else if pv {
            match self.cell_type {
                CellType::SharedRef => {
                    match crate::text::parse_usize(text.as_str()) {
                        Some(ix) => {
                            if ix < book.str_share.len() {
                                CellValue::Shared(book.str_share[ix].clone())
                            } else {
                                return Err(XlsxError::MalformedXml);
                            }
                        },
                        None => {
                            return Err(XlsxError::MalformedXml);
                        },
                    }
                },
                CellType::Numeric => {
                    if fmt == FMT_DATE || fmt == FMT_DATETIME || fmt == FMT_TIME {
                        match crate::serial::parse_serial(text.as_str()) {
                            Some(se) => {
                                proof {
                                    crate::coerce::lemma_serial_of_text(text@, se);
                                }
                                if fmt == FMT_DATE {
                                    CellValue::Date(se)
                                } else if fmt == FMT_DATETIME {
                                    CellValue::Datetime(se)
                                } else {
                                    CellValue::Time(se)
                                }
                            },
                            None => {
                                return Err(XlsxError::MalformedXml);
                            },
                        }
                    } else {
                        match crate::serial::parse_number(text.as_str()) {
                            crate::serial::NumParse::Value(u2) => CellValue::Number(text.clone()),
                            crate::serial::NumParse::TooLarge => CellValue::Number(text.clone()),
                            crate::serial::NumParse::Invalid => {
                                return Err(XlsxError::MalformedXml);
                            },
                        }
                    }
                },
                CellType::Boolean => {
                    match crate::text::parse_usize(text.as_str()) {
                        Some(v) => CellValue::Bool(v == 1),
                        None => CellValue::Bool(false),
                    }
                },
                CellType::DateText => CellValue::String(text.clone()),
                CellType::ErrorText => CellValue::Error(text.clone()),
                CellType::FormulaText => CellValue::String(text.clone()),
                CellType::InlineText => CellValue::Blank,
                CellType::Other => CellValue::Blank,
            }
        } else {
            CellValue::Error(String::from_str("Unknown cell type"))
        };
        // backfill the column gap with blanks
        let ghost orow = self.row_value@;
        let ghost oci = self.col_index;
        let ghost gap = if self.col_index + self.left_ncol < self.cur_col {
            self.cur_col - self.left_ncol - self.col_index
        } else {
            0int
        };
        while (self.col_index as u64) + (self.left_ncol as u64) < (self.cur_col as u64)
            invariant
                self.col_index >= oci,
                self.col_index - oci <= gap,
                gap == if oci + self.left_ncol < self.cur_col {
                    self.cur_col - self.left_ncol - oci
                } else {
                    0int
                },
                self.row_value@.len() == orow.len() + (self.col_index - oci),
                self.row_value@.take(orow.len() as int) == orow,
                forall|j: int|
                    orow.len() <= j < self.row_value@.len() ==> self.row_value@[j] is Blank,
                *self == (XlsxSheet {
                    row_value: self.row_value,
                    col_index: self.col_index,
                    ..*old(self)
                }),
            decreases self.cur_col - self.left_ncol - self.col_index,
        {
            self.row_value.push(CellValue::Blank);
            proof {
                assert(self.row_value@.take(orow.len() as int) =~= orow);
            }
            self.col_index = self.col_index + 1;
        }
        // serve a pending capture
        let has_set = self.addr_captures.is_some();
        if has_set {
            let captured = match &self.addr_captures {
                Some(set) => {
                    match find_addr_index(set, &self.cell_addr) {
                        Some(j) => Some(j),
                        None => None,
                    }
                },
                None => None,
            };
            match captured {
                Some(j) => {
                    let ghost oset = match &self.addr_captures {
                        Some(set) => set.deep_view(),
                        None => Seq::empty(),
                    };
                    let ghost ovals = self.vals_captures@;
                    match &mut self.addr_captures {
                        Some(set) => {
                            let removed = set.remove(j);
                            proof {
                                lemma_remove_first(oset, old(self).cell_addr@, j as int);
                                assert(set.deep_view() =~= oset.take(j as int) + oset.skip(
                                    j + 1,
                                ));
                            }
                        },
                        None => {},
                    }
                    self.vals_captures.push((self.cell_addr.clone(), cel_val.duplicate()));
                    proof {
                        assert(self.vals_captures@.take(ovals.len() as int) =~= ovals);
                    }
                },
                None => {},
            }
        }
        self.col_index = if self.col_index < u32::MAX {
            self.col_index + 1
        } else {
            u32::MAX
        };
        self.row_value.push(cel_val);
        proof {
            assert(self.row_value@.take(orow.len() as int) =~= orow);
        }
        Ok(Step::NeedMore)
    }
}

/// The index of the first entry equal to the address, if any.
fn find_addr_index(set: &Vec<String>, a: &String) -> (r: Option<usize>)
    ensures
        match r {
            Some(j) => j < set@.len() && set@[j as int]@ == a@ && (forall|k: int|
                0 <= k < j ==> (#[trigger] set@[k])@ != a@) && has_addr(set.deep_view(), a@),
            None => !has_addr(set.deep_view(), a@),
        },
{
    let n = set.len();
    let mut i: usize = 0;
    while i < n
        invariant
            i <= n == set@.len(),
            forall|k: int| 0 <= k < i ==> (#[trigger] set@[k])@ != a@,
        decreases n - i,
    {
        if crate::text::string_eq(&set[i], a) {
            proof {
                assert(set.deep_view()[i as int] == set@[i as int]@);
            }
            return Some(i);
        }
        i += 1;
    }
    proof {
        assert forall|k: int| 0 <= k < set.deep_view().len() implies set.deep_view()[k] != a@ by {
            assert(set.deep_view()[k] == set@[k]@);
        }
    }
    None
}

/// Removing the first occurrence splices the list at its index.
proof fn lemma_remove_first(set: Seq<Seq<char>>, a: Seq<char>, j: int)
    requires
        0 <= j < set.len(),
        set[j] == a,
        forall|k: int| 0 <= k < j ==> set[k] != a,
    ensures
        remove_first(set, a) == set.take(j) + set.skip(j + 1),
    decreases j,
{
    if j == 0 {
        assert(remove_first(set, a) == set.skip(1));
        assert(set.take(0) + set.skip(1) =~= set.skip(1));
    } else {
        let t = set.skip(1);
        assert(forall|k: int| 0 <= k < j - 1 ==> #[trigger] t[k] == set[k + 1] && t[k] != a);
        assert(t[j - 1] == set[j]);
        lemma_remove_first(t, a, j - 1);
        assert(remove_first(set, a) == seq![set[0]] + (t.take(j - 1) + t.skip(j)));
        assert(seq![set[0]] + (t.take(j - 1) + t.skip(j)) =~= set.take(j) + set.skip(j + 1));
    }
}

// ------------------------------------------------- address-text helpers

/// The `(row, column)` a textual address denotes, reading the text's
/// bytes as the address codec does.
pub open spec fn tuple_of_text(t: Seq<char>) -> Result<(RowNum, ColNum), XlsxError> {
    let full = crate::address::bytes_as_chars(vstd::utf8::encode_utf8(t));
    let cut = crate::address::last_letter_at(full);
    let rowtxt = full.skip(cut + 1);
    if cut >= 0 && rowtxt.len() > 0 && all_digits(rowtxt) && 1 <= digits_val(rowtxt)
        <= u32::MAX && 1 <= crate::address::col_value(crate::address::canon_letters(full))
        <= 65535 {
        Ok(
            (
                digits_val(rowtxt) as u32,
                crate::address::col_value(crate::address::canon_letters(full)) as u16,
            ),
        )
    } else {
        Err(XlsxError::InvalidAddress)
    }
}

/// The column-letter value of a textual address, reading the text's
/// bytes as the address codec does; a valid cell address has a value
/// between 1 and 65535.
pub open spec fn addr_col_value(t: Seq<char>) -> int {
    crate::address::col_value(
        crate::address::canon_letters(
            crate::address::bytes_as_chars(vstd::utf8::encode_utf8(t)),
        ),
    )
}

/// Parse a textual address through the address codec.
fn tuple_of_string(s: &String) -> (r: Result<(RowNum, ColNum), XlsxError>)
    ensures
        r == tuple_of_text(s@),
{
    crate::address::get_tuple_from_ord(s.as_str().as_bytes())
}

/// The segment between the first and second `':'`, when a `':'` exists.
pub open spec fn dim_second(rv: Seq<char>) -> Option<Seq<char>> {
    let i = crate::text::first_at(rv, ':');
    if i < rv.len() {
        let rest = rv.skip(i + 1);
        Some(rest.take(crate::text::first_at(rest, ':')))
    } else {
        None
    }
}

/// Extract the segment between the first and second `':'`.
fn dim_second_exec(s: &String) -> (r: Option<String>)
    ensures
        match r {
            Some(v) => dim_second(s@) == Some(v@),
            None => dim_second(s@) is None,
        },
{
    let t = s.as_str();
    let n = t.unicode_len();
    let mut i: usize = 0;
    while i < n && t.get_char(i) != ':'
        invariant
            t@ == s@,
            i <= n == s@.len(),
            forall|j: int| 0 <= j < i ==> s@[j] != ':',
        decreases n - i,
    {
        i += 1;
    }
    if i == n {
        proof {
            crate::text::lemma_first_at_found(s@, ':', n as int);
        }
        return None;
    }
    proof {
        crate::text::lemma_first_at_found(s@, ':', i as int);
    }
    let ghost rest = s@.skip(i + 1);
    let mut j: usize = i + 1;
    while j < n && t.get_char(j) != ':'
        invariant
            t@ == s@,
            i + 1 <= j <= n == s@.len(),
            rest == s@.skip(i + 1),
            forall|k: int| 0 <= k < j - i - 1 ==> rest[k] != ':',
        decreases n - j,
    {
        proof {
            assert(rest[j - i - 1] == s@[j as int]);
        }
        i += 0;
        j += 1;
    }
    proof {
        if j < n {
            assert(rest[j - i - 1] == s@[j as int]);
            crate::text::lemma_first_at_found(rest, ':', j - i - 1);
        } else {
            crate::text::lemma_first_at_found(rest, ':', rest.len() as int);
        }
    }
    let seg = t.substring_char(i + 1, j);
    proof {
        assert(seg@ =~= rest.take(j - i - 1));
    }
    Some(seg.to_owned())
}

/// The text after the last `':'`; the whole text when it has none.
pub open spec fn after_last_colon(t: Seq<char>) -> Seq<char>
    decreases t.len(),
{
    if t.len() == 0 {
        Seq::empty()
    } else if t.last() == ':' {
        Seq::empty()
    } else {
        after_last_colon(t.drop_last()).push(t.last())
    }
}

/// Extract the text after the last `':'`.
fn after_last_colon_exec(s: &String) -> (r: String)
    ensures
        r@ == after_last_colon(s@),
{
    let t = s.as_str();
    let n = t.unicode_len();
    let mut i: usize = n;
    proof {
        assert(s@.take(n as int) =~= s@);
        assert(s@.skip(n as int) =~= Seq::<char>::empty());
        assert(after_last_colon(s@) + Seq::<char>::empty() =~= after_last_colon(s@));
    }
    while i > 0 && t.get_char(i - 1) != ':'
        invariant
            t@ == s@,
            i <= n == s@.len(),
            after_last_colon(s@) == after_last_colon(s@.take(i as int)) + s@.skip(i as int),
        decreases i,
    {
        proof {
            assert(s@.take(i as int).last() == s@[i - 1]);
            assert(s@.take(i as int).drop_last() =~= s@.take(i - 1));
            assert(after_last_colon(s@.take(i - 1)) + s@.skip(i - 1) =~= after_last_colon(
                s@.take(i - 1),
            ).push(s@[i - 1]) + s@.skip(i as int));
        }
        i -= 1;
    }
    proof {
        if i > 0 {
            assert(s@.take(i as int).last() == s@[i - 1]);
            assert(after_last_colon(s@.take(i as int)) =~= Seq::<char>::empty());
            assert(after_last_colon(s@) =~= s@.skip(i as int));
        } else {
            assert(s@.take(0) =~= Seq::<char>::empty());
            assert(after_last_colon(s@) =~= s@.skip(0));
        }
    }
    let seg = t.substring_char(i, n);
    proof {
        assert(seg@ =~= s@.skip(i as int));
    }
    seg.to_owned()
}

/// Whether attribute text parses as a `u16`.
pub open spec fn attr_u16_ok(t: Seq<char>) -> bool {
    t.len() > 0 && all_digits(t) && digits_val(t) <= u16::MAX
}

/// An exact copy of a range list.
pub fn copy_ranges(v: &Vec<MergedRange>) -> (r: Vec<MergedRange>)
    ensures
        r@ == v@,
{
    let n = v.len();
    let mut out: Vec<MergedRange> = Vec::new();
    let mut i: usize = 0;
    while i < n
        invariant
            i <= n == v@.len(),
            out@ == v@.take(i as int),
        decreases n - i,
    {
        out.push(v[i]);
        proof {
            assert(out@ =~= v@.take(i + 1));
        }
        i += 1;
    }
    proof {
        assert(v@.take(n as int) =~= v@);
    }
    out
}


/// What feeding a self-closing tag does; see [`XlsxSheet::handle_empty`].
pub open spec fn empty_post(
    pre: XlsxSheet,
    post: XlsxSheet,
    r: Result<Step, XlsxError>,
    name: Seq<char>,
    attrs: Seq<(String, String)>,
) -> bool {
    &&& (r is Ok ==> post.prev_head@ == name)
    &&& ((pre.status == SheetStatus::New && name == "dimension"@) ==> ({
                match spec_attr(attrs, "ref"@) {
                    None => r matches Err(e) && e == XlsxError::MissingAttribute,
                    Some(rv) => match dim_second(rv) {
                        None => r matches Ok(s) && s is NeedMore && post == (XlsxSheet {
                            prev_head: post.prev_head,
                            ..pre
                        }),
                        Some(seg) => match tuple_of_text(seg) {
                            Err(e) => r matches Err(e2) && e2 == e,
                            Ok(t) => r matches Ok(s) && s is NeedMore && post.max_size
                                == Some(t) && post == (XlsxSheet {
                                max_size: post.max_size,
                                prev_head: post.prev_head,
                                ..pre
                            }),
                        },
                    },
                }
            }))
    &&& (name == "sheetData"@ ==> (r matches Ok(s) && s is End && post.status
                == SheetStatus::Closed && post == (XlsxSheet {
                status: post.status,
                prev_head: post.prev_head,
                ..pre
            })))
    &&& (((pre.status != SheetStatus::New || name != "dimension"@) && name
                != "sheetData"@) ==> (r matches Ok(s) && s is NeedMore && post == (
            XlsxSheet { prev_head: post.prev_head, ..pre })))
}


/// What feeding an opening tag does, per the decoder's state and the
/// tag's name; see [`XlsxSheet::handle_start`].
pub open spec fn start_post(
    pre: XlsxSheet,
    post: XlsxSheet,
    r: Result<Step, XlsxError>,
    book: XlsxBook,
    name: Seq<char>,
    attrs: Seq<(String, String)>,
) -> bool {
    &&& (r is Ok ==> post.prev_head@ == name)
    &&& ((pre.status == SheetStatus::Closed && name != "mergeCells"@) ==> (r matches Ok(s) && s
        is End && post == (XlsxSheet { prev_head: post.prev_head, ..pre })))
    &&& ((pre.status == SheetStatus::New && name == "dimension"@) ==> ({
                match spec_attr(attrs, "ref"@) {
                    None => r matches Err(e) && e == XlsxError::MissingAttribute,
                    Some(rv) => match dim_second(rv) {
                        None => r matches Ok(s) && s is NeedMore && post == (XlsxSheet {
                            prev_head: post.prev_head,
                            ..pre
                        }),
                        Some(seg) => match tuple_of_text(seg) {
                            Err(e) => r matches Err(e2) && e2 == e,
                            Ok(t) => r matches Ok(s) && s is NeedMore && post.max_size
                                == Some(t) && post == (XlsxSheet {
                                max_size: post.max_size,
                                prev_head: post.prev_head,
                                ..pre
                            }),
                        },
                    },
                }
            }))
    &&& ((pre.status == SheetStatus::New && name == "sheetData"@) ==> (r matches Ok(s)
                && s is NeedMore && post.status == SheetStatus::Active && post == (
            XlsxSheet {
                status: post.status,
                prev_head: post.prev_head,
                ..pre
            })))
    &&& (((pre.status == SheetStatus::New || pre.status == SheetStatus::Closed) && name
        == "mergeCells"@) ==> ({
                match spec_attr(attrs, "count"@) {
                    None => r matches Err(e) && e == XlsxError::MissingAttribute,
                    Some(cv) => {
                        if !crate::book::attr_u32_ok(cv) {
                            r matches Err(e) && e == XlsxError::MalformedXml
                        } else {
                            &&& r matches Ok(s) && s is NeedMore
                            &&& (post.merge_scan matches Some(p) && p.0 == digits_val(cv)
                                && p.1@ == (match pre.merged_rects {
                                Some(m) => m@,
                                None => Seq::<MergedRange>::empty(),
                            }))
                            &&& post.merged_rects is None
                            &&& post == (XlsxSheet {
                                merge_scan: post.merge_scan,
                                merged_rects: post.merged_rects,
                                prev_head: post.prev_head,
                                ..pre
                            })
                        }
                    },
                }
            }))
    &&& ((pre.status == SheetStatus::New && name != "dimension"@ && name
                != "sheetData"@ && name != "mergeCells"@) ==> (r matches Ok(s) && s is NeedMore
                && post == (XlsxSheet { prev_head: post.prev_head, ..pre })))
    &&& (((pre.status == SheetStatus::Active || pre.status
                == SheetStatus::ReadingCell || pre.status == SheetStatus::SkippingCell)
                && name == "c"@) ==> ({
                let tyv = celltype_of(spec_attr(attrs, "t"@));
                let style_ok = match spec_attr(attrs, "s"@) {
                    None => true,
                    Some(sv) => crate::book::attr_u32_ok(sv) && assoc_u32(
                        book.map_style@,
                        digits_val(sv) as u32,
                    ) is Some,
                };
                let fid: u32 = match spec_attr(attrs, "s"@) {
                    None => 0u32,
                    Some(sv) => match assoc_u32(book.map_style@, digits_val(sv) as u32) {
                        Some(id) => id,
                        None => 0u32,
                    },
                };
                if !style_ok {
                    r matches Err(e) && e == XlsxError::MalformedXml
                } else {
                    match spec_attr(attrs, "r"@) {
                        None => r matches Err(e) && e == XlsxError::MissingAttribute,
                        Some(av) => ({
                            let colv = addr_col_value(av);
                            if colv < 1 || colv > 65535 {
                                r matches Err(e) && e == XlsxError::InvalidAddress
                            } else {
                                let col = colv as ColNum;
                                &&& r matches Ok(s) && s is NeedMore
                                &&& post.cell_type == tyv
                                &&& post.num_fmt_id == fid
                                &&& post.cell_addr@ == av
                                &&& post.cur_col == col
                                &&& post.status == (if pre.currow > pre.skip_rows
                                    && pre.left_ncol < col && col <= pre.right_ncol {
                                    SheetStatus::ReadingCell
                                } else {
                                    SheetStatus::SkippingCell
                                })
                                &&& post == (XlsxSheet {
                                    cell_type: post.cell_type,
                                    num_fmt_id: post.num_fmt_id,
                                    cell_addr: post.cell_addr,
                                    cur_col: post.cur_col,
                                    status: post.status,
                                    prev_head: post.prev_head,
                                    ..pre
                                })
                            }
                        }),
                    }
                }
            }))
    &&& (((pre.status == SheetStatus::Active || pre.status
                == SheetStatus::ReadingCell || pre.status == SheetStatus::SkippingCell)
                && name == "row"@) ==> ({
                match spec_attr(attrs, "r"@) {
                    None => r matches Err(e) && e == XlsxError::MissingAttribute,
                    Some(rv) => {
                        if !crate::book::attr_u32_ok(rv) {
                            r matches Err(e) && e == XlsxError::MalformedXml
                        } else {
                            let spans_bad = pre.right_ncol == MAX_COL_NUM && (match
                                spec_attr(attrs, "spans"@) {
                                Some(sp) => !attr_u16_ok(after_last_colon(sp)),
                                None => false,
                            });
                            if spans_bad {
                                r matches Err(e) && e == XlsxError::MalformedXml
                            } else {
                                &&& r matches Ok(s) && s is NeedMore
                                &&& post.currow == digits_val(rv)
                                &&& post.row_value@ == Seq::<CellValue>::empty()
                                &&& post.col_index == 1
                                &&& post.row_cap == (
                                if pre.right_ncol != MAX_COL_NUM && pre.right_ncol
                                    > pre.left_ncol {
                                    (pre.right_ncol - pre.left_ncol) as u16
                                } else {
                                    0u16
                                })
                                &&& post == (XlsxSheet {
                                    currow: post.currow,
                                    row_value: post.row_value,
                                    col_index: post.col_index,
                                    row_cap: post.row_cap,
                                    prev_head: post.prev_head,
                                    ..pre
                                })
                            }
                        }
                    },
                }
            }))
    &&& (((pre.status == SheetStatus::Active || pre.status
                == SheetStatus::ReadingCell || pre.status == SheetStatus::SkippingCell)
                && name != "c"@ && name != "row"@) ==> (r matches Ok(s) && s is NeedMore
                && post == (XlsxSheet { prev_head: post.prev_head, ..pre })))
}

impl XlsxSheet {
    /// Feed an opening tag to the decoder.  In `New` this watches for the
    /// `dimension` hint, the `mergeCells` block and the `sheetData` open;
    /// from `Active` on it opens rows and cells, resolving each cell's
    /// type code, style and address.  The tag's name is recorded as the
    /// innermost open element.
    pub fn handle_start(
        &mut self,
        book: &XlsxBook,
        name: &String,
        attrs: &Vec<(String, String)>,
    ) -> (r: Result<Step, XlsxError>)
        ensures
            start_post(*old(self), *final(self), r, *book, name@, attrs@),
    {
        proof {
            reveal_strlit("dimension");
            reveal_strlit("sheetData");
            reveal_strlit("mergeCells");
            reveal_strlit("c");
            reveal_strlit("row");
            assert("dimension"@ != "sheetData"@) by {
                assert(("dimension"@)[0] == 'd' && ("sheetData"@)[0] == 's');
            }
            assert("dimension"@.len() == 9 && "sheetData"@.len() == 9 && "mergeCells"@.len()
                == 10 && "c"@.len() == 1 && "row"@.len() == 3);
        }
        self.prev_head = name.clone();
        if self.status == SheetStatus::Closed {
            if str_eq(name.as_str(), "mergeCells") {
                return self.start_merge(attrs);
            }
            return Ok(Step::End);
        }
        if self.status == SheetStatus::New {
            if str_eq(name.as_str(), "dimension") {
                return self.start_dimension(attrs);
            } else if str_eq(name.as_str(), "sheetData") {
                self.status = SheetStatus::Active;
                return Ok(Step::NeedMore);
            } else if str_eq(name.as_str(), "mergeCells") {
                return self.start_merge(attrs);
            }
            return Ok(Step::NeedMore);
        }
        if str_eq(name.as_str(), "c") {
            return self.start_cell(book, attrs);
        } else if str_eq(name.as_str(), "row") {
            return self.start_row(attrs);
        }
        Ok(Step::NeedMore)
    }

    /// Record the declared sheet extent from a `dimension` element.
    fn start_dimension(&mut self, attrs: &Vec<(String, String)>) -> (r: Result<Step, XlsxError>)
        ensures
            match spec_attr(attrs@, "ref"@) {
                None => r matches Err(e) && e == XlsxError::MissingAttribute,
                Some(rv) => match dim_second(rv) {
                    None => r matches Ok(s) && s is NeedMore && *final(self) == *old(self),
                    Some(seg) => match tuple_of_text(seg) {
                        Err(e) => r matches Err(e2) && e2 == e,
                        Ok(t) => r matches Ok(s) && s is NeedMore && final(self).max_size == Some(
                            t,
                        ) && *final(self) == (XlsxSheet {
                            max_size: final(self).max_size,
                            ..*old(self)
                        }),
                    },
                },
            },
    {
        let rv = match find_attr(attrs, "ref") {
            Some(v) => v,
            None => {
                return Err(XlsxError::MissingAttribute);
            },
        };
        match dim_second_exec(rv) {
            Some(seg) => {
                match tuple_of_string(&seg) {
                    Ok(t) => {
                        self.max_size = Some(t);
                        Ok(Step::NeedMore)
                    },
                    Err(e) => Err(e),
                }
            },
            None => Ok(Step::NeedMore),
        }
    }

    /// Begin collecting merged ranges from a `mergeCells` element.
    fn start_merge(&mut self, attrs: &Vec<(String, String)>) -> (r: Result<Step, XlsxError>)
        ensures
            match spec_attr(attrs@, "count"@) {
                None => r matches Err(e) && e == XlsxError::MissingAttribute,
                Some(cv) => {
                    if !crate::book::attr_u32_ok(cv) {
                        r matches Err(e) && e == XlsxError::MalformedXml
                    } else {
                        &&& r matches Ok(s) && s is NeedMore
                        &&& (final(self).merge_scan matches Some(p) && p.0 == digits_val(cv)
                            && p.1@ == (match old(self).merged_rects {
                            Some(m) => m@,
                            None => Seq::<MergedRange>::empty(),
                        }))
                        &&& final(self).merged_rects is None
                        &&& *final(self) == (XlsxSheet {
                            merge_scan: final(self).merge_scan,
                            merged_rects: final(self).merged_rects,
                            ..*old(self)
                        })
                    }
                },
            },
    {
        let cv = match find_attr(attrs, "count") {
            Some(v) => v,
            None => {
                return Err(XlsxError::MissingAttribute);
            },
        };
        let cnt = match crate::text::parse_usize(cv.as_str()) {
            Some(c) => c,
            None => {
                return Err(XlsxError::MalformedXml);
            },
        };
        let existing: Vec<MergedRange> = match &self.merged_rects {
            Some(m) => copy_ranges(m),
            None => Vec::new(),
        };
        self.merged_rects = None;
        self.merge_scan = Some((cnt, existing));
        Ok(Step::NeedMore)
    }

    /// Open a cell: resolve its type code, its style's format id, and its
    /// address, and decide whether its value is wanted.
    fn start_cell(&mut self, book: &XlsxBook, attrs: &Vec<(String, String)>) -> (r: Result<
        Step,
        XlsxError,
    >)
        ensures
            ({
                let tyv = celltype_of(spec_attr(attrs@, "t"@));
                let style_ok = match spec_attr(attrs@, "s"@) {
                    None => true,
                    Some(sv) => crate::book::attr_u32_ok(sv) && assoc_u32(
                        book.map_style@,
                        digits_val(sv) as u32,
                    ) is Some,
                };
                let fid: u32 = match spec_attr(attrs@, "s"@) {
                    None => 0u32,
                    Some(sv) => match assoc_u32(book.map_style@, digits_val(sv) as u32) {
                        Some(id) => id,
                        None => 0u32,
                    },
                };
                if !style_ok {
                    r matches Err(e) && e == XlsxError::MalformedXml
                } else {
                    match spec_attr(attrs@, "r"@) {
                        None => r matches Err(e) && e == XlsxError::MissingAttribute,
                        Some(av) => ({
                            let colv = addr_col_value(av);
                            if colv < 1 || colv > 65535 {
                                r matches Err(e) && e == XlsxError::InvalidAddress
                            } else {
                                let col = colv as ColNum;
                                &&& r matches Ok(s) && s is NeedMore
                                &&& final(self).cell_type == tyv
                                &&& final(self).num_fmt_id == fid
                                &&& final(self).cell_addr@ == av
                                &&& final(self).cur_col == col
                                &&& final(self).status == (if old(self).currow > old(
                                    self,
                                ).skip_rows && old(self).left_ncol < col && col <= old(
                                    self,
                                ).right_ncol {
                                    SheetStatus::ReadingCell
                                } else {
                                    SheetStatus::SkippingCell
                                })
                                &&& *final(self) == (XlsxSheet {
                                    cell_type: final(self).cell_type,
                                    num_fmt_id: final(self).num_fmt_id,
                                    cell_addr: final(self).cell_addr,
                                    cur_col: final(self).cur_col,
                                    status: final(self).status,
                                    ..*old(self)
                                })
                            }
                        }),
                    }
                }
            }),
    {
        let ty: CellType = match find_attr(attrs, "t") {
            None => CellType::Numeric,
            Some(v) => {
                if str_eq(v.as_str(), "n") {
                    CellType::Numeric
                } else if str_eq(v.as_str(), "s") {
                    CellType::SharedRef
                } else if str_eq(v.as_str(), "b") {
                    CellType::Boolean
                } else if str_eq(v.as_str(), "d") {
                    CellType::DateText
                } else if str_eq(v.as_str(), "e") {
                    CellType::ErrorText
                } else if str_eq(v.as_str(), "str") {
                    CellType::FormulaText
                } else if str_eq(v.as_str(), "inlineStr") {
                    CellType::InlineText
                } else {
                    CellType::Other
                }
            },
        };
        let fid: u32 = match find_attr(attrs, "s") {
            None => 0,
            Some(sv) => {
                match crate::text::parse_u32(sv.as_str()) {
                    Some(ix) => {
                        match assoc_get_u32(&book.map_style, ix) {
                            Some(id) => id,
                            None => {
                                return Err(XlsxError::MalformedXml);
                            },
                        }
                    },
                    None => {
                        return Err(XlsxError::MalformedXml);
                    },
                }
            },
        };
        let av = match find_attr(attrs, "r") {
            Some(v) => v.clone(),
            None => {
                return Err(XlsxError::MissingAttribute);
            },
        };
        let col = match crate::address::get_num_from_ord(av.as_str().as_bytes()) {
            Ok(c) => c,
            Err(e) => {
                return Err(e);
            },
        };
        if col == 0 {
            // the address holds no column letters
            return Err(XlsxError::InvalidAddress);
        }
        self.cell_type = ty;
        self.num_fmt_id = fid;
        self.cell_addr = av;
        self.cur_col = col;
        if self.currow > self.skip_rows && self.left_ncol < col && col <= self.right_ncol {
            self.status = SheetStatus::ReadingCell;
        } else {
            self.status = SheetStatus::SkippingCell;
        }
        Ok(Step::NeedMore)
    }

    /// Open a row: record its number and reset the row buffer.
    fn start_row(&mut self, attrs: &Vec<(String, String)>) -> (r: Result<Step, XlsxError>)
        ensures
            match spec_attr(attrs@, "r"@) {
                None => r matches Err(e) && e == XlsxError::MissingAttribute,
                Some(rv) => {
                    if !crate::book::attr_u32_ok(rv) {
                        r matches Err(e) && e == XlsxError::MalformedXml
                    } else {
                        let spans_bad = old(self).right_ncol == MAX_COL_NUM && (match spec_attr(
                            attrs@,
                            "spans"@,
                        ) {
                            Some(sp) => !attr_u16_ok(after_last_colon(sp)),
                            None => false,
                        });
                        if spans_bad {
                            r matches Err(e) && e == XlsxError::MalformedXml
                        } else {
                            &&& r matches Ok(s) && s is NeedMore
                            &&& final(self).currow == digits_val(rv)
                            &&& final(self).row_value@ == Seq::<CellValue>::empty()
                            &&& final(self).col_index == 1
                            &&& final(self).row_cap == (
                            if old(self).right_ncol != MAX_COL_NUM
                                && old(self).right_ncol > old(self).left_ncol {
                                (old(self).right_ncol - old(self).left_ncol) as u16
                            } else {
                                0u16
                            })
                            &&& *final(self) == (XlsxSheet {
                                currow: final(self).currow,
                                row_value: final(self).row_value,
                                col_index: final(self).col_index,
                                row_cap: final(self).row_cap,
                                ..*old(self)
                            })
                        }
                    }
                },
            },
    {
        let rv = match find_attr(attrs, "r") {
            Some(v) => v,
            None => {
                return Err(XlsxError::MissingAttribute);
            },
        };
        let rn = match crate::text::parse_u32(rv.as_str()) {
            Some(v) => v,
            None => {
                return Err(XlsxError::MalformedXml);
            },
        };
        if self.right_ncol == MAX_COL_NUM {
            match find_attr(attrs, "spans") {
                Some(sp) => {
                    let seg = after_last_colon_exec(sp);
                    match crate::text::parse_u32(seg.as_str()) {
                        Some(v) => {
                            if v > u16::MAX as u32 {
                                return Err(XlsxError::MalformedXml);
                            }
                        },
                        None => {
                            return Err(XlsxError::MalformedXml);
                        },
                    }
                },
                None => {},
            }
        }
        self.currow = rn;
        self.row_value = Vec::new();
        self.col_index = 1;
        self.row_cap = if self.right_ncol != MAX_COL_NUM && self.right_ncol > self.left_ncol {
            self.right_ncol - self.left_ncol
        } else {
            0
        };
        Ok(Step::NeedMore)
    }

    /// Feed a self-closing tag to the decoder: `dimension` is read in
    /// `New`; a self-closing `sheetData` closes the decode.
    pub fn handle_empty(&mut self, name: &String, attrs: &Vec<(String, String)>) -> (r: Result<
        Step,
        XlsxError,
    >)
        ensures
            empty_post(*old(self), *final(self), r, name@, attrs@),
    {
        proof {
            reveal_strlit("dimension");
            reveal_strlit("sheetData");
            assert("dimension"@ != "sheetData"@) by {
                assert(("dimension"@)[0] == 'd' && ("sheetData"@)[0] == 's');
            }
        }
        self.prev_head = name.clone();
        if self.status == SheetStatus::New && str_eq(name.as_str(), "dimension") {
            return self.start_dimension(attrs);
        }
        if str_eq(name.as_str(), "sheetData") {
            self.status = SheetStatus::Closed;
            return Ok(Step::End);
        }
        Ok(Step::NeedMore)
    }
}

/// The assembled row padded with trailing blanks to the configured width,
/// when the right column bound is fixed.
pub open spec fn padded_row(s: XlsxSheet) -> Seq<CellValue> {
    if s.right_ncol != MAX_COL_NUM && s.row_value@.len() < s.row_cap {
        s.row_value@ + Seq::new((s.row_cap - s.row_value@.len()) as nat, |i: int| CellValue::Blank)
    } else {
        s.row_value@
    }
}


/// What feeding one event to an active merged-range scan does; see
/// [`XlsxSheet::merge_event`].
pub open spec fn merge_event_post(
    pre: XlsxSheet,
    post: XlsxSheet,
    r: Result<Step, XlsxError>,
    ev: XmlEvent,
) -> bool {
    &&& (pre.merge_scan is None ==> (r matches Ok(s) && s is NeedMore && post
                == pre))
    &&& (pre.merge_scan is Some ==> ({
                match ev {
                    XmlEvent::End { name: n2 } => merge_finish_post(pre, post, r),
                    XmlEvent::Eof => merge_finish_post(pre, post, r),
                    XmlEvent::Start { name: n2, attrs: a2 } => {
                        if n2@ == "mergeCell"@ {
                            merge_cell_post(pre, post, r, a2@)
                        } else {
                            r matches Ok(s) && s is NeedMore && post == pre
                        }
                    },
                    XmlEvent::Empty { name: n2, attrs: a2 } => {
                        if n2@ == "mergeCell"@ {
                            merge_cell_post(pre, post, r, a2@)
                        } else {
                            r matches Ok(s) && s is NeedMore && post == pre
                        }
                    },
                    XmlEvent::Text { text: t2 } => r matches Ok(s) && s is NeedMore
                        && post == pre,
                }
            }))
}

impl XlsxSheet {
    /// Feed a merged-range event while a `mergeCells` block is being
    /// scanned: each `mergeCell` contributes its `TopLeft:BottomRight`
    /// pair; any closing tag, or the end of the part, finishes the scan,
    /// which must have produced exactly the declared count.
    pub fn merge_event(&mut self, ev: &XmlEvent) -> (r: Result<Step, XlsxError>)
        ensures
            merge_event_post(*old(self), *final(self), r, *ev),
    {
        let scanning = self.merge_scan.is_some();
        if !scanning {
            return Ok(Step::NeedMore);
        }
        match ev {
            XmlEvent::Start { name, attrs } => {
                if str_eq(name.as_str(), "mergeCell") {
                    self.merge_cell(attrs)
                } else {
                    Ok(Step::NeedMore)
                }
            },
            XmlEvent::Empty { name, attrs } => {
                if str_eq(name.as_str(), "mergeCell") {
                    self.merge_cell(attrs)
                } else {
                    Ok(Step::NeedMore)
                }
            },
            XmlEvent::End { name } => self.merge_finish(),
            XmlEvent::Eof => self.merge_finish(),
            XmlEvent::Text { text } => Ok(Step::NeedMore),
        }
    }

    /// Append one `mergeCell` element's range.
    fn merge_cell(&mut self, attrs: &Vec<(String, String)>) -> (r: Result<Step, XlsxError>)
        requires
            old(self).merge_scan is Some,
        ensures
            merge_cell_post(*old(self), *final(self), r, attrs@),
    {
        let rv = match find_attr(attrs, "ref") {
            Some(v) => v,
            None => {
                return Err(XlsxError::MissingAttribute);
            },
        };
        let second = match dim_second_exec(rv) {
            Some(x) => x,
            None => {
                return Err(XlsxError::MalformedXml);
            },
        };
        let n = rv.as_str().unicode_len();
        let mut k: usize = 0;
        let t = rv.as_str();
        while k < n && t.get_char(k) != ':'
            invariant
                t@ == rv@,
                k <= n == rv@.len(),
                forall|j: int| 0 <= j < k ==> rv@[j] != ':',
            decreases n - k,
        {
            k += 1;
        }
        proof {
            if k < n {
                crate::text::lemma_first_at_found(rv@, ':', k as int);
            } else {
                crate::text::lemma_first_at_found(rv@, ':', n as int);
            }
        }
        let firsttxt = t.substring_char(0, k);
        proof {
            assert(firsttxt@ =~= rv@.take(crate::text::first_at(rv@, ':')));
        }
        let first = firsttxt.to_owned();
        let left_top = match tuple_of_string(&first) {
            Ok(v) => v,
            Err(e) => {
                return Err(e);
            },
        };
        let right_end = match tuple_of_string(&second) {
            Ok(v) => v,
            Err(e) => {
                return Err(e);
            },
        };
        match &mut self.merge_scan {
            Some(p) => {
                let ghost ol = p.1@;
                p.1.push((left_top, right_end));
                proof {
                    assert(p.1@ =~= ol.push((left_top, right_end)));
                }
            },
            None => {},
        }
        Ok(Step::NeedMore)
    }

    /// Finish the merged-range scan and check the declared count.
    fn merge_finish(&mut self) -> (r: Result<Step, XlsxError>)
        requires
            old(self).merge_scan is Some,
        ensures
            merge_finish_post(*old(self), *final(self), r),
    {
        let (cnt, list) = match &self.merge_scan {
            Some(p) => (p.0, copy_ranges(&p.1)),
            None => (0, Vec::new()),
        };
        self.merge_scan = None;
        if list.len() == cnt {
            self.merged_rects = Some(list);
            Ok(Step::NeedMore)
        } else {
            self.merged_rects = None;
            Err(XlsxError::MergeCountMismatch)
        }
    }
}

/// What appending one `mergeCell` element does: both corner addresses of
/// its `ref` attribute are decoded and the pair joins the scan list.
pub open spec fn merge_cell_post(
    pre: XlsxSheet,
    post: XlsxSheet,
    r: Result<Step, XlsxError>,
    attrs: Seq<(String, String)>,
) -> bool {
    match spec_attr(attrs, "ref"@) {
        None => r matches Err(e) && e == XlsxError::MissingAttribute,
        Some(rv) => match dim_second(rv) {
            None => r matches Err(e) && e == XlsxError::MalformedXml,
            Some(second) => {
                let firsttxt = rv.take(crate::text::first_at(rv, ':'));
                match (tuple_of_text(firsttxt), tuple_of_text(second)) {
                    (Ok(lt), Ok(re)) => {
                        &&& r matches Ok(s) && s is NeedMore
                        &&& (pre.merge_scan matches Some(p) ==> (post.merge_scan matches Some(
                            p2,
                        ) && p2.0 == p.0 && p2.1@ == p.1@.push((lt, re))))
                        &&& post == (XlsxSheet { merge_scan: post.merge_scan, ..pre })
                    },
                    (Err(e1), u) => r matches Err(e2) && e2 == e1,
                    (Ok(lt), Err(e1)) => r matches Err(e2) && e2 == e1,
                }
            },
        },
    }
}

/// What finishing the scan does: on the declared count the list becomes
/// the sheet's merged ranges; on a mismatch the list is discarded and the
/// count mismatch reported.
pub open spec fn merge_finish_post(
    pre: XlsxSheet,
    post: XlsxSheet,
    r: Result<Step, XlsxError>,
) -> bool {
    match pre.merge_scan {
        Some(p) => {
            if p.1@.len() == p.0 {
                &&& r matches Ok(s) && s is NeedMore
                &&& (post.merged_rects matches Some(m) && m@ == p.1@)
                &&& post.merge_scan is None
                &&& post == (XlsxSheet {
                    merged_rects: post.merged_rects,
                    merge_scan: post.merge_scan,
                    ..pre
                })
            } else {
                &&& r matches Err(e) && e == XlsxError::MergeCountMismatch
                &&& post.merged_rects is None
                &&& post.merge_scan is None
                &&& post == (XlsxSheet {
                    merged_rects: post.merged_rects,
                    merge_scan: post.merge_scan,
                    ..pre
                })
            }
        },
        None => true,
    }
}

impl XlsxSheet {
    /// Feed a closing tag: a row end runs the row through the filters
    /// (skip-until, then read-before, then padding, then skip-matched,
    /// then header capture) and may emit it; the end of `sheetData`
    /// closes the decode.
    pub fn handle_end(&mut self, name: &String) -> (r: Result<Step, XlsxError>)
        ensures
            end_post(*old(self), *final(self), r, name@),
    {
        proof {
            reveal_strlit("row");
            reveal_strlit("sheetData");
            assert("row"@.len() == 3 && "sheetData"@.len() == 9);
        }
        let is_row = str_eq(name.as_str(), "row");
        if is_row && (self.status == SheetStatus::Active || self.status
            == SheetStatus::ReadingCell || self.status == SheetStatus::SkippingCell)
            && self.row_value.len() > 0 {
            return self.finish_row();
        }
        if str_eq(name.as_str(), "sheetData") {
            self.status = SheetStatus::Closed;
            return Ok(Step::End);
        }
        Ok(Step::NeedMore)
    }

    /// Run the assembled row through the filters and decide its fate.
    fn finish_row(&mut self) -> (r: Result<Step, XlsxError>)
        requires
            old(self).row_value@.len() > 0,
        ensures
            finish_row_post(*old(self), *final(self), r),
    {
        // a pending skip-until predicate drops rows until its first match
        let had_su = self.skip_until.is_some();
        if had_su {
            let m = match &self.skip_until {
                Some(su) => is_matched_row(&self.row_value, su, true),
                None => false,
            };
            if !m {
                return Ok(Step::NeedMore);
            }
            self.skip_until = None;
        } else {
            // a read-before match stops the decode and discards the row
            let stop = match &self.read_before {
                Some(rb) => is_matched_row(&self.row_value, rb, true),
                None => false,
            };
            if stop {
                self.status = SheetStatus::Closed;
                self.read_before = None;
                return Ok(Step::End);
            }
        }
        // pad to the fixed width
        let ghost row0 = self.row_value@;
        let ghost pre = *old(self);
        proof {
            assert(self.skip_until is None);
            assert(*self == (XlsxSheet {
                skip_until: self.skip_until,
                row_value: self.row_value,
                ..pre
            }));
        }
        if self.right_ncol != MAX_COL_NUM {
            while self.row_value.len() < self.row_cap as usize
                invariant
                    row0.len() > 0,
                    row0 == pre.row_value@,
                    self.row_value@.len() >= row0.len(),
                    self.row_value@.take(row0.len() as int) == row0,
                    forall|j: int|
                        row0.len() <= j < self.row_value@.len() ==> self.row_value@[j]
                            is Blank,
                    self.row_value@.len() <= self.row_cap || self.row_value@ == row0,
                    self.skip_until is None,
                    *self == (XlsxSheet {
                        skip_until: self.skip_until,
                        row_value: self.row_value,
                        ..pre
                    }),
                decreases self.row_cap - self.row_value@.len(),
            {
                self.row_value.push(CellValue::Blank);
                proof {
                    assert(self.row_value@.take(row0.len() as int) =~= row0);
                }
            }
            proof {
                assert(self.row_value@ =~= padded_row(pre));
            }
        }
        proof {
            assert(self.row_value@ =~= padded_row(pre));
        }
        // skip-matched drops data rows, never the header
        if !self.first_row_is_header {
            let dropit = match &self.skip_matched {
                Some(sm) => is_matched_row(&self.row_value, sm, self.skip_matched_check_by_and),
                None => false,
            };
            if dropit {
                return Ok(Step::NeedMore);
            }
        }
        // emit: captures end with the first produced row
        self.addr_captures = None;
        let row = self.row_value.split_off(0);
        proof {
            assert(row@ =~= padded_row(pre));
            assert(self.row_value@ =~= Seq::<CellValue>::empty());
        }
        if self.first_row_is_header {
            let ok = match &self.header_check {
                Some(hc) => is_matched_row(&row, hc, true),
                None => true,
            };
            if !ok {
                match &self.header_check {
                    Some(hc) => {
                        proof {
                            crate::matcher::lemma_matched_iff_no_unmatched(row@, hc@);
                        }
                        match find_unmatched(&row, hc) {
                            Some(k) => {
                                self.header_fail = Some((hc[k].0, copy_strings(&hc[k].1)));
                            },
                            None => {},
                        }
                    },
                    None => {},
                }
                return Err(XlsxError::ConfigurationError);
            }
            self.first_row = Some((self.currow, row));
            self.first_row_is_header = false;
            return Ok(Step::NeedMore);
        }
        Ok(Step::Row(self.currow, row))
    }

    /// Feed one event to the decoder.  A merged-range scan in progress
    /// takes every event (see [`XlsxSheet::merge_event`]); otherwise
    /// opening, self-closing, text and closing events go to their
    /// handlers ([`XlsxSheet::handle_start`], [`XlsxSheet::handle_empty`],
    /// [`XlsxSheet::handle_text`], [`XlsxSheet::handle_end`]), and the
    /// end of the part closes the decode.
    pub fn advance(&mut self, book: &XlsxBook, ev: &XmlEvent) -> (r: Result<Step, XlsxError>)
        ensures
            advance_post(*old(self), *final(self), r, *book, *ev),
    {
        if self.merge_scan.is_some() {
            let eof = match ev {
                XmlEvent::Eof => true,
                _ => false,
            };
            let r = self.merge_event(ev);
            if eof {
                self.status = SheetStatus::Closed;
                return match r {
                    Ok(u) => Ok(Step::End),
                    Err(e) => Err(e),
                };
            }
            return r;
        }
        match ev {
            XmlEvent::Start { name, attrs } => self.handle_start(book, name, attrs),
            XmlEvent::Empty { name, attrs } => self.handle_empty(name, attrs),
            XmlEvent::Text { text } => self.handle_text(book, text),
            XmlEvent::End { name } => self.handle_end(name),
            XmlEvent::Eof => {
                self.status = SheetStatus::Closed;
                Ok(Step::End)
            },
        }
    }

    /// The merged ranges.  While the scan has not produced them: before
    /// the decode has closed this is a configuration error; after it, a
    /// sheet without merge information has no ranges.
    pub fn get_merged_ranges(&self) -> (r: Result<Vec<MergedRange>, XlsxError>)
        ensures
            match self.merged_rects {
                Some(m) => r matches Ok(v) && v@ == m@,
                None => {
                    if self.status == SheetStatus::Closed {
                        r matches Ok(v) && v@ == Seq::<MergedRange>::empty()
                    } else {
                        r matches Err(e) && e == XlsxError::ConfigurationError
                    }
                },
            },
    {
        match &self.merged_rects {
            Some(m) => Ok(copy_ranges(m)),
            None => {
                if self.status == SheetStatus::Closed {
                    let v: Vec<MergedRange> = Vec::new();
                    proof {
                        assert(v@ =~= Seq::<MergedRange>::empty());
                    }
                    Ok(v)
                } else {
                    Err(XlsxError::ConfigurationError)
                }
            },
        }
    }
}


/// What feeding a closing tag does: a nonempty row's end runs the row
/// filters ([`finish_row_post`]); the end of `sheetData` closes the
/// decode; everything else changes nothing.
pub open spec fn end_post(
    pre: XlsxSheet,
    post: XlsxSheet,
    r: Result<Step, XlsxError>,
    name: Seq<char>,
) -> bool {
    let in_data = pre.status == SheetStatus::Active || pre.status == SheetStatus::ReadingCell
        || pre.status == SheetStatus::SkippingCell;
    &&& ((name == "row"@ && in_data && pre.row_value@.len() > 0) ==> finish_row_post(
        pre,
        post,
        r,
    ))
    &&& (name == "sheetData"@ ==> (r matches Ok(s) && s is End && post.status
        == SheetStatus::Closed && post == (XlsxSheet { status: post.status, ..pre })))
    &&& ((name != "row"@ && name != "sheetData"@) ==> (r matches Ok(s) && s is NeedMore && post
        == pre))
    &&& ((name == "row"@ && !(in_data && pre.row_value@.len() > 0)) ==> (r matches Ok(s) && s
        is NeedMore && post == pre))
}

/// What ending a nonempty row does, per the configured filters: a row
/// before the skip-until match is dropped; a read-before match stops the
/// decode and discards the row; otherwise the row is padded to the fixed
/// width, a skip-matched data row is dropped, and what remains is either
/// captured as the header (validated against the header check) or emitted
/// with its row number.  Address captures end with the first produced
/// row.
pub open spec fn finish_row_post(
    pre: XlsxSheet,
    post: XlsxSheet,
    r: Result<Step, XlsxError>,
) -> bool {
    let row0 = pre.row_value@;
    let p = padded_row(pre);
    let su_unmatched = pre.skip_until matches Some(su) && !row_matched(row0, su@, true);
    let rb_stop = pre.skip_until is None && (pre.read_before matches Some(rb) && row_matched(
        row0,
        rb@,
        true,
    ));
    let sm_drop = !pre.first_row_is_header && (pre.skip_matched matches Some(sm) && row_matched(
        p,
        sm@,
        pre.skip_matched_check_by_and,
    ));
    let hc_ok = match pre.header_check {
        Some(hc) => row_matched(p, hc@, true),
        None => true,
    };
    if su_unmatched {
        r matches Ok(s) && s is NeedMore && post == pre
    } else if rb_stop {
        &&& r matches Ok(s) && s is End
        &&& post.status == SheetStatus::Closed
        &&& post.read_before is None
        &&& post == (XlsxSheet {
            status: post.status,
            read_before: post.read_before,
            ..pre
        })
    } else if sm_drop {
        &&& r matches Ok(s) && s is NeedMore
        &&& post.skip_until is None
        &&& post.row_value@ == p
        &&& post == (XlsxSheet { skip_until: post.skip_until, row_value: post.row_value, ..pre })
    } else if pre.first_row_is_header {
        if !hc_ok {
            &&& r matches Err(e) && e == XlsxError::ConfigurationError
            &&& (match pre.header_check {
                Some(hc) => (first_unmatched(p, hc@) matches Some(k) && (post.header_fail
                    matches Some(f) && f.0 == hc@[k].0 && f.1.deep_view()
                    == hc@[k].1.deep_view())),
                None => true,
            })
        } else {
            &&& r matches Ok(s) && s is NeedMore
            &&& (post.first_row matches Some(h) && h.0 == pre.currow && h.1@ == p)
            &&& !post.first_row_is_header
            &&& post.addr_captures is None
            &&& post.skip_until is None
            &&& post.row_value@ == Seq::<CellValue>::empty()
            &&& post == (XlsxSheet {
                skip_until: post.skip_until,
                addr_captures: post.addr_captures,
                row_value: post.row_value,
                first_row: post.first_row,
                first_row_is_header: post.first_row_is_header,
                ..pre
            })
        }
    } else {
        &&& r matches Ok(s) && (s matches Step::Row(rn, d) && rn == pre.currow && d@ == p)
        &&& post.skip_until is None
        &&& post.addr_captures is None
        &&& post.row_value@ == Seq::<CellValue>::empty()
        &&& post == (XlsxSheet {
            skip_until: post.skip_until,
            addr_captures: post.addr_captures,
            row_value: post.row_value,
            ..pre
        })
    }
}

// ------------------------------------------------ stream-level laws

/// Once the decoder is `Closed`, no event produces another row, and any
/// successful step leaves it `Closed`: the terminal state is absorbing.
pub proof fn lemma_closed_is_terminal(
    pre: XlsxSheet,
    post: XlsxSheet,
    r: Result<Step, XlsxError>,
    book: XlsxBook,
    ev: XmlEvent,
)
    requires
        pre.status == SheetStatus::Closed,
        advance_post(pre, post, r, book, ev),
    ensures
        !(r matches Ok(s) && s is Row),
        r is Ok ==> post.status == SheetStatus::Closed,
{
}

/// A row comes out of the decoder only at the end of a nonempty `row`
/// element, carries that element's declared row number, and holds the
/// assembled cells padded to the fixed width.  In particular, a row
/// number absent from the part can never be emitted.
pub proof fn lemma_rows_come_from_row_ends(
    pre: XlsxSheet,
    post: XlsxSheet,
    r: Result<Step, XlsxError>,
    book: XlsxBook,
    ev: XmlEvent,
)
    requires
        advance_post(pre, post, r, book, ev),
        r matches Ok(s) && s is Row,
    ensures
        ev matches XmlEvent::End { name } && name@ == "row"@,
        pre.merge_scan is None,
        pre.status == SheetStatus::Active || pre.status == SheetStatus::ReadingCell
            || pre.status == SheetStatus::SkippingCell,
        pre.row_value@.len() > 0,
        r matches Ok(s) && (s matches Step::Row(rn, d) && rn == pre.currow && d@ == padded_row(
            pre,
        )),
{
}

/// Once the skip-until predicate has been satisfied (and so disabled), no
/// successful step re-arms it: every later row is judged without it.
pub proof fn lemma_skip_until_stays_disabled(
    pre: XlsxSheet,
    post: XlsxSheet,
    r: Result<Step, XlsxError>,
    book: XlsxBook,
    ev: XmlEvent,
)
    requires
        pre.skip_until is None,
        advance_post(pre, post, r, book, ev),
        r is Ok,
    ensures
        post.skip_until is None,
{
}

/// Once address capturing has ended (with the first produced row), no
/// successful step resumes it.
pub proof fn lemma_captures_stay_ended(
    pre: XlsxSheet,
    post: XlsxSheet,
    r: Result<Step, XlsxError>,
    book: XlsxBook,
    ev: XmlEvent,
)
    requires
        pre.addr_captures is None,
        advance_post(pre, post, r, book, ev),
        r is Ok,
    ensures
        post.addr_captures is None,
{
}

// ----------------------------------------------------- whole-run laws

/// Whether the states, step results and events form one run of the
/// decoder: each state follows its predecessor by feeding one event.
pub open spec fn decoder_run(
    states: Seq<XlsxSheet>,
    results: Seq<Result<Step, XlsxError>>,
    evs: Seq<XmlEvent>,
    book: XlsxBook,
) -> bool {
    &&& states.len() == evs.len() + 1
    &&& results.len() == evs.len()
    &&& forall|k: int|
        0 <= k < evs.len() ==> advance_post(
            #[trigger] states[k],
            states[k + 1],
            results[k],
            book,
            evs[k],
        )
}

/// Whether every step of the run succeeded.
pub open spec fn run_ok(results: Seq<Result<Step, XlsxError>>) -> bool {
    forall|k: int| 0 <= k < results.len() ==> (#[trigger] results[k]) is Ok
}

/// Over a whole error-free run: once the decoder is closed at some step,
/// it stays closed and no later step produces a row.  In particular,
/// after a read-before match closes the decode, the rest of the stream
/// yields nothing.
pub proof fn lemma_run_closed_is_terminal(
    states: Seq<XlsxSheet>,
    results: Seq<Result<Step, XlsxError>>,
    evs: Seq<XmlEvent>,
    book: XlsxBook,
    i: int,
    j: int,
)
    requires
        decoder_run(states, results, evs, book),
        run_ok(results),
        0 <= i <= j < evs.len(),
        states[i].status == SheetStatus::Closed,
    ensures
        states[j + 1].status == SheetStatus::Closed,
        !(results[j] matches Ok(s) && s is Row),
    decreases j - i,
{
    if j == i {
        lemma_closed_is_terminal(states[i], states[i + 1], results[i], book, evs[i]);
    } else {
        lemma_run_closed_is_terminal(states, results, evs, book, i, j - 1);
        lemma_closed_is_terminal(states[j], states[j + 1], results[j], book, evs[j]);
    }
}

/// Over a whole error-free run: once the skip-until predicate has been
/// disabled at some step, it stays disabled — every later row is judged
/// without it.
pub proof fn lemma_run_skip_until_stays_disabled(
    states: Seq<XlsxSheet>,
    results: Seq<Result<Step, XlsxError>>,
    evs: Seq<XmlEvent>,
    book: XlsxBook,
    i: int,
    j: int,
)
    requires
        decoder_run(states, results, evs, book),
        run_ok(results),
        0 <= i <= j < evs.len(),
        states[i].skip_until is None,
    ensures
        states[j + 1].skip_until is None,
    decreases j - i,
{
    if j == i {
        lemma_skip_until_stays_disabled(states[i], states[i + 1], results[i], book, evs[i]);
    } else {
        lemma_run_skip_until_stays_disabled(states, results, evs, book, i, j - 1);
        lemma_skip_until_stays_disabled(states[j], states[j + 1], results[j], book, evs[j]);
    }
}

/// Over a whole run: every emitted row comes from the end of a nonempty
/// `row` element and carries that element's declared number and the
/// assembled, padded cells.  A row number absent from the part is never
/// emitted, and never emitted as a blank row either.
pub proof fn lemma_run_rows_from_row_ends(
    states: Seq<XlsxSheet>,
    results: Seq<Result<Step, XlsxError>>,
    evs: Seq<XmlEvent>,
    book: XlsxBook,
    k: int,
)
    requires
        decoder_run(states, results, evs, book),
        0 <= k < evs.len(),
        results[k] matches Ok(s) && s is Row,
    ensures
        evs[k] matches XmlEvent::End { name } && name@ == "row"@,
        states[k].merge_scan is None,
        states[k].row_value@.len() > 0,
        results[k] matches Ok(s) && (s matches Step::Row(rn, d) && rn == states[k].currow && d@
            == padded_row(states[k])),
{
    lemma_rows_come_from_row_ends(states[k], states[k + 1], results[k], book, evs[k]);
}

/// The built-in classification maps numeric format 14 to a date, so a
/// numeric cell styled with it decodes to a `Date` holding the raw
/// day-serial — for every number text that fits as a serial.
pub proof fn lemma_builtin_date_format_decodes_dates(
    fmts: Seq<(u32, u8)>,
    text: Seq<char>,
    shared: Seq<Seq<char>>,
)
    requires
        fmts == crate::book::builtin_fmts(),
        crate::coerce::number_ok(text),
    ensures
        fmt_of(fmts, 14) == FMT_DATE,
        decode_cell_spec(CellType::Numeric, "v"@, fmt_of(fmts, 14), text, shared) == Ok::<
            CellModel,
            XlsxError,
        >(CellModel::MDate(crate::coerce::serial_of_text(text))),
{
    assert(assoc_u32(fmts, 14) == Some(crate::book::FMT_DATE)) by {
        reveal_with_fuel(crate::book::assoc_u32, 35);
    }
}

/// Over a whole error-free run, P-style: at a nonempty row end whose row
/// meets the read-before predicate (with no skip-until pending), the
/// decoder discards the row, reports the end, closes — and no later step
/// of the run produces a row.
pub proof fn lemma_run_read_before_stops(
    states: Seq<XlsxSheet>,
    results: Seq<Result<Step, XlsxError>>,
    evs: Seq<XmlEvent>,
    book: XlsxBook,
    k: int,
    j: int,
)
    requires
        decoder_run(states, results, evs, book),
        run_ok(results),
        0 <= k <= j < evs.len(),
        states[k].merge_scan is None,
        evs[k] matches XmlEvent::End { name } && name@ == "row"@,
        states[k].status == SheetStatus::Active || states[k].status == SheetStatus::ReadingCell
            || states[k].status == SheetStatus::SkippingCell,
        states[k].row_value@.len() > 0,
        states[k].skip_until is None,
        states[k].read_before matches Some(rb) && row_matched(states[k].row_value@, rb@, true),
    ensures
        results[k] matches Ok(s) && s is End,
        states[k + 1].status == SheetStatus::Closed,
        k < j ==> !(results[j] matches Ok(s2) && s2 is Row),
{
    assert(advance_post(states[k], states[k + 1], results[k], book, evs[k]));
    assert(finish_row_post(states[k], states[k + 1], results[k]));
    if k < j {
        lemma_run_closed_is_terminal(states, results, evs, book, k + 1, j);
    }
}

/// Over a whole error-free run, P-style: at a nonempty row end whose row
/// meets the pending skip-until predicate, the predicate is disabled and
/// stays disabled for the rest of the run: that row is the first judged
/// without it, and every later one follows.
pub proof fn lemma_run_skip_until_match_disables(
    states: Seq<XlsxSheet>,
    results: Seq<Result<Step, XlsxError>>,
    evs: Seq<XmlEvent>,
    book: XlsxBook,
    k: int,
    j: int,
)
    requires
        decoder_run(states, results, evs, book),
        run_ok(results),
        0 <= k <= j < evs.len(),
        states[k].merge_scan is None,
        evs[k] matches XmlEvent::End { name } && name@ == "row"@,
        states[k].status == SheetStatus::Active || states[k].status == SheetStatus::ReadingCell
            || states[k].status == SheetStatus::SkippingCell,
        states[k].row_value@.len() > 0,
        states[k].skip_until matches Some(su) && row_matched(states[k].row_value@, su@, true),
    ensures
        states[k + 1].skip_until is None,
        states[j + 1].skip_until is None,
{
    assert(advance_post(states[k], states[k + 1], results[k], book, evs[k]));
    assert(finish_row_post(states[k], states[k + 1], results[k]));
    if k < j {
        lemma_run_skip_until_stays_disabled(states, results, evs, book, k + 1, j);
    }
}

} // verus!
