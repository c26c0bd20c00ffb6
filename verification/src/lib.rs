//! A batch reader and writer for Office Open XML spreadsheets.
//!
//! The library decodes the container format (a zip of XML parts) into typed
//! row data one row at a time, without materialising a whole worksheet.  All
//! of the logic — address arithmetic, the streaming row decoder, numeric
//! format classification, typed cell coercion, batching and caching — lives
//! here and is verified.  Reading the zip entries and tokenising the XML is
//! left to the surrounding (unverified) binding, which feeds the decoder a
//! plain stream of [`xml::XmlEvent`] values.
use vstd::prelude::*;
use vstd::string::StringExecFns;

pub mod address;
pub mod batch;
pub mod book;
pub mod cached;
pub mod cell;
pub mod coerce;
pub mod dates;
pub mod matcher;
pub mod serial;
pub mod sheet;
pub mod text;
pub mod writer;
pub mod xml;

verus! {

/// A 1-based row number.
pub type RowNum = u32;

/// A 1-based column number.
pub type ColNum = u16;

/// A merged rectangle: top-left and bottom-right corners, both inclusive,
/// each as `(row, column)`.
pub type MergedRange = ((RowNum, ColNum), (RowNum, ColNum));

/// The sentinel column bound meaning "extend to the row's last populated
/// column".
pub const MAX_COL_NUM: u16 = 65535;

/// The largest representable row number.
pub const MAX_ROW_NUM: u32 = 4294967295;

/// Every failure the library reports.
#[derive(Clone, Copy, Debug, PartialEq, Eq, Structural)]
pub enum XlsxError {
    /// The archive or a required part is missing or unreadable; reported
    /// by the container binding, which owns the archive.
    MalformedContainer,
    /// The XML of a part does not have the expected structure, or a value
    /// in it cannot be decoded.
    MalformedXml,
    /// A required XML attribute is absent.
    MissingAttribute,
    /// A sheet references a relationship id that the workbook does not define.
    UnknownRelationship,
    /// The shared-string table's length differs from its declared count.
    SharedStringCountMismatch,
    /// The extracted merged ranges differ in number from the declared count.
    MergeCountMismatch,
    /// No sheet of the requested name exists.
    SheetNotFound,
    /// A textual cell address cannot be parsed, or lies out of range.
    InvalidAddress,
    /// A cell value cannot be converted to the requested type.
    TypeCoercionError,
    /// An operation was requested in a state that does not allow it.
    ConfigurationError,
}

impl XlsxError {
    /// A short human-readable description of the error.
    pub fn msg(&self) -> String {
        match self {
            XlsxError::MalformedContainer => String::from_str("malformed container"),
            XlsxError::MalformedXml => String::from_str("malformed xml"),
            XlsxError::MissingAttribute => String::from_str("missing attribute"),
            XlsxError::UnknownRelationship => String::from_str("unknown relationship"),
            XlsxError::SharedStringCountMismatch => String::from_str(
                "shared string count mismatch",
            ),
            XlsxError::MergeCountMismatch => String::from_str("merge count mismatch"),
            XlsxError::SheetNotFound => String::from_str("sheet not found"),
            XlsxError::InvalidAddress => String::from_str("invalid cell address"),
            XlsxError::TypeCoercionError => String::from_str("type coercion error"),
            XlsxError::ConfigurationError => String::from_str("configuration error"),
        }
    }
}

/// Seconds since the Unix epoch, as read from a cell.
#[derive(Debug, Clone, Copy)]
pub struct Timestamp(i64);

/// Seconds since midnight, as read from a cell.
#[derive(Debug, Clone, Copy)]
pub struct Timesecond(i32);

/// Days since the Unix epoch.
pub type Date32 = i32;

/// Relies on `chrono::Local::now`: the local time zone's offset from UTC in
/// seconds.  `chrono::FixedOffset` only ever holds offsets strictly between
/// minus one day and one day.  The value depends on the machine's time zone
/// and on when the call is made, so nothing more is promised of it.
#[verifier::external_body]
fn local_offset_seconds() -> (r: i64)
    ensures
        -86400 < r < 86400,
{
    chrono::Local::now().offset().local_minus_utc() as i64
}

impl Timestamp {
    /// The seconds-since-epoch count this value carries.
    pub closed spec fn spec_utc(&self) -> i64 {
        self.0
    }

    /// Read the cell value as a UTC datetime: the timestamp itself.
    pub fn utc(&self) -> (r: i64)
        ensures
            r == self.spec_utc(),
    {
        self.0
    }

    /// Read the cell value as a local datetime and return the corresponding
    /// UTC timestamp.  The machine's time zone decides the shift, so only
    /// its one-day bound can be promised.
    pub fn local(&self) -> (r: i64)
        requires
            i64::MIN + 86400 < self.spec_utc() < i64::MAX - 86400,
        ensures
            self.spec_utc() - 86400 < r < self.spec_utc() + 86400,
    {
        self.0 - local_offset_seconds()
    }
}

impl From<i64> for Timestamp {
    fn from(v: i64) -> (r: Timestamp)
        ensures
            r.spec_utc() == v,
    {
        Timestamp(v)
    }
}

impl vstd::std_specs::convert::FromSpecImpl<i64> for Timestamp {
    open spec fn obeys_from_spec() -> bool {
        true
    }

    closed spec fn from_spec(v: i64) -> Timestamp {
        Timestamp(v)
    }
}

impl Timesecond {
    /// The seconds-since-midnight count this value carries.
    pub closed spec fn spec_secs(&self) -> i32 {
        self.0
    }

    /// The seconds-since-midnight count, as an executable accessor.
    pub fn secs(&self) -> (r: i32)
        ensures
            r == self.spec_secs(),
    {
        self.0
    }
}

impl From<i32> for Timesecond {
    fn from(v: i32) -> (r: Timesecond)
        ensures
            r.spec_secs() == v,
    {
        Timesecond(v)
    }
}

impl vstd::std_specs::convert::FromSpecImpl<i32> for Timesecond {
    open spec fn obeys_from_spec() -> bool {
        true
    }

    closed spec fn from_spec(v: i32) -> Timesecond {
        Timesecond(v)
    }
}

impl From<Timesecond> for i32 {
    fn from(ts: Timesecond) -> (r: i32)
        ensures
            r == ts.spec_secs(),
    {
        ts.0
    }
}

impl vstd::std_specs::convert::FromSpecImpl<Timesecond> for i32 {
    open spec fn obeys_from_spec() -> bool {
        true
    }

    open spec fn from_spec(ts: Timesecond) -> i32 {
        ts.spec_secs()
    }
}

} // verus!
