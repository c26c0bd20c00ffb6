//! The cell value model: a tagged union over every raw representation a
//! cell can carry.  Numbers keep their raw decimal text; date, time and
//! datetime cells keep the day-serial exactly as a [`Serial`].
use vstd::prelude::*;

use crate::serial::Serial;
use crate::text::{dec_digits, push_dec_u64, string_from_chars};
use crate::XlsxError;

verus! {

/// A raw cell value.
///
/// `Shared` holds the text resolved from the book's shared-string table —
/// the table entry is cloned into the cell, so the value does not borrow
/// the book.  `Number` keeps the cell's decimal text exactly as written.
#[derive(Debug, Clone)]
pub enum CellValue {
    /// An empty cell.
    Blank,
    /// A boolean cell.
    Bool(bool),
    /// A plain numeric cell, as its raw decimal text.
    Number(String),
    /// A date-formatted numeric cell, as its day-serial.
    Date(Serial),
    /// A time-formatted numeric cell, as its day-serial fraction.
    Time(Serial),
    /// A datetime-formatted numeric cell, as its day-serial.
    Datetime(Serial),
    /// A cell resolved from the shared-string table.
    Shared(String),
    /// An inline or formula string cell.
    String(String),
    /// An error cell, such as `#DIV/0!`.
    Error(String),
}

impl vstd::view::DeepView for CellValue {
    type V = CellValue;

    open spec fn deep_view(&self) -> CellValue {
        *self
    }
}

/// Conversion from a raw cell value to a typed value.  `Ok(None)` stands
/// for a blank or null-sentinel cell; an unconvertible cell is an error.
pub trait FromCellValue: Sized {
    /// Whether `r` is the reading of `v` as this type.
    spec fn from_cval_ok(v: CellValue, r: Option<Self>) -> bool;

    /// Whether `v` cannot be read as this type.
    spec fn from_cval_err(v: CellValue) -> bool;

    /// Try to read `val` as a value of this type.
    fn try_from_cval(val: &CellValue) -> (r: Result<Option<Self>, XlsxError>)
        ensures
            match r {
                Ok(o) => Self::from_cval_ok(*val, o) && !Self::from_cval_err(*val),
                Err(e) => Self::from_cval_err(*val) && e == XlsxError::TypeCoercionError,
            },
    ;
}

/// Conversion from a typed value to a raw cell value.
pub trait IntoCellValue {
    /// Turn the value into a raw cell value.
    fn try_into_cval(self) -> Result<CellValue, XlsxError>;
}

impl CellValue {
    /// Read the cell as a `T`.  A blank cell reads as `None` (except for
    /// `String`, which reads as the empty string).
    pub fn get<T: FromCellValue>(&self) -> (r: Result<Option<T>, XlsxError>)
        ensures
            match r {
                Ok(o) => T::from_cval_ok(*self, o) && !T::from_cval_err(*self),
                Err(e) => T::from_cval_err(*self) && e == XlsxError::TypeCoercionError,
            },
    {
        T::try_from_cval(self)
    }

    /// An exact copy of the cell value.
    pub fn duplicate(&self) -> (r: CellValue)
        ensures
            r == *self,
    {
        match self {
            CellValue::Blank => CellValue::Blank,
            CellValue::Bool(b) => CellValue::Bool(*b),
            CellValue::Number(s) => CellValue::Number(s.clone()),
            CellValue::Date(se) => CellValue::Date(*se),
            CellValue::Time(se) => CellValue::Time(*se),
            CellValue::Datetime(se) => CellValue::Datetime(*se),
            CellValue::Shared(s) => CellValue::Shared(s.clone()),
            CellValue::String(s) => CellValue::String(s.clone()),
            CellValue::Error(s) => CellValue::Error(s.clone()),
        }
    }
}

impl From<String> for CellValue {
    /// A string becomes a `String` cell.
    fn from(v: String) -> (r: CellValue)
        ensures
            r == CellValue::String(v),
    {
        CellValue::String(v)
    }
}

impl vstd::std_specs::convert::FromSpecImpl<String> for CellValue {
    open spec fn obeys_from_spec() -> bool {
        true
    }

    open spec fn from_spec(v: String) -> CellValue {
        CellValue::String(v)
    }
}

impl From<bool> for CellValue {
    /// A boolean becomes a `Bool` cell.
    fn from(v: bool) -> (r: CellValue)
        ensures
            r == CellValue::Bool(v),
    {
        CellValue::Bool(v)
    }
}

impl vstd::std_specs::convert::FromSpecImpl<bool> for CellValue {
    open spec fn obeys_from_spec() -> bool {
        true
    }

    open spec fn from_spec(v: bool) -> CellValue {
        CellValue::Bool(v)
    }
}

/// The decimal text of a signed integer.
pub open spec fn int_text(v: int) -> Seq<char> {
    if v == 0 {
        seq!['0']
    } else if v < 0 {
        seq!['-'] + dec_digits(-v)
    } else {
        dec_digits(v)
    }
}

/// Render a signed integer as decimal text.
pub fn int_to_text(v: i64) -> (r: String)
    ensures
        r@ == int_text(v as int),
{
    let mut out: Vec<char> = Vec::new();
    if v == 0 {
        out.push('0');
        proof {
            assert(out@ =~= int_text(0));
        }
    } else if v < 0 {
        out.push('-');
        let m: u64 = if v == i64::MIN {
            9223372036854775808u64
        } else {
            (-v) as u64
        };
        push_dec_u64(&mut out, m);
        proof {
            assert(out@ =~= int_text(v as int));
        }
    } else {
        push_dec_u64(&mut out, v as u64);
        proof {
            assert(out@ =~= int_text(v as int));
        }
    }
    string_from_chars(&out)
}

impl From<i64> for CellValue {
    /// An integer becomes a `Number` cell holding its decimal text.
    fn from(v: i64) -> (r: CellValue)
        ensures
            r matches CellValue::Number(s) && s@ == int_text(v as int),
    {
        CellValue::Number(int_to_text(v))
    }
}

impl vstd::std_specs::convert::FromSpecImpl<i64> for CellValue {
    // The conversion renders text, which a spec-level value cannot carry,
    // so the contract lives on `from` itself rather than on `from_spec`.
    open spec fn obeys_from_spec() -> bool {
        false
    }

    open spec fn from_spec(v: i64) -> CellValue {
        CellValue::Blank
    }
}

} // verus!
