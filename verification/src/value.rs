//! The value of a cell, and the conversions from it.
//!
//! A cell holds exactly one of eight kinds of value. The conversions are strict: a
//! conversion gives the value only where the cell holds it exactly, an empty cell gives
//! a value only where the caller names a default, and an error code is handed out on
//! request and never turned into a value.

use crate::binary64::Binary64;
use crate::datetime::{
    lemma_serial_round_trip, lemma_span_round_trip, DateSystem, DateTime, Serial, TimeSpan,
};
use crate::error::Error;
use vstd::prelude::*;

verus! {

/// The kinds of value that a cell can hold.
#[derive(Clone, Copy, Debug, PartialEq, Eq, Structural)]
pub enum ValueKind {
    /// A whole number.
    Int,
    /// A number.
    Float,
    /// A text.
    String,
    /// A truth value.
    Bool,
    /// A point in time.
    DateTime,
    /// A length of time.
    Duration,
    /// An error code of the spreadsheet.
    Error,
    /// Nothing.
    Empty,
}

/// The error codes that a spreadsheet can store in a cell.
#[derive(Clone, Copy, Debug, PartialEq, Eq, Structural)]
pub enum CellErrorCode {
    /// Division by zero.
    Div0,
    /// No value is available.
    NA,
    /// A name is not known.
    Name,
    /// Two ranges do not meet.
    Null,
    /// A number is not valid.
    Num,
    /// A reference is not valid.
    Ref,
    /// A value is of the wrong type.
    Value,
    /// The data is still being fetched.
    GettingData,
}

/// What the format of a number cell says the number stands for.
#[derive(Clone, Copy, Debug, PartialEq, Eq, Structural)]
pub enum NumberFormat {
    /// A number.
    General,
    /// A point in time, as a number of days from the epoch of the date system.
    DateTime,
    /// A length of time, as a number of days.
    Duration,
}

/// The value of a cell. An empty cell is not a cell with an empty text.
#[derive(Debug, PartialEq, Eq)]
pub enum CellValue {
    /// A whole number.
    Int(i64),
    /// A number.
    Float(Binary64),
    /// A text.
    String(String),
    /// A truth value.
    Bool(bool),
    /// A point in time, as its serial in the document's date system.
    DateTime(Serial),
    /// A length of time, as its serial.
    Duration(Serial),
    /// An error code of the spreadsheet.
    Error(CellErrorCode),
    /// Nothing.
    Empty,
}

impl Clone for CellValue {
    fn clone(&self) -> (r: Self)
        ensures
            r == *self,
    {
        match self {
            CellValue::Int(i) => CellValue::Int(*i),
            CellValue::Float(x) => CellValue::Float(*x),
            CellValue::String(text) => CellValue::String(text.clone()),
            CellValue::Bool(b) => CellValue::Bool(*b),
            CellValue::DateTime(serial) => CellValue::DateTime(*serial),
            CellValue::Duration(serial) => CellValue::Duration(*serial),
            CellValue::Error(code) => CellValue::Error(*code),
            CellValue::Empty => CellValue::Empty,
        }
    }
}

impl CellValue {
    /// The kind of the value.
    pub open spec fn kind_of(self) -> ValueKind {
        match self {
            CellValue::Int(_) => ValueKind::Int,
            CellValue::Float(_) => ValueKind::Float,
            CellValue::String(_) => ValueKind::String,
            CellValue::Bool(_) => ValueKind::Bool,
            CellValue::DateTime(_) => ValueKind::DateTime,
            CellValue::Duration(_) => ValueKind::Duration,
            CellValue::Error(_) => ValueKind::Error,
            CellValue::Empty => ValueKind::Empty,
        }
    }

    /// The error for a cell that cannot give a value of kind `expected`:
    /// [`Error::EmptyCell`] for an empty cell, [`Error::TypeMismatch`] for any other.
    pub open spec fn refusal(self, expected: ValueKind) -> Error {
        if self is Empty {
            Error::EmptyCell
        } else {
            Error::TypeMismatch(expected, self.kind_of())
        }
    }

    /// The cell as a whole number: the number of an `Int`, and that of a `Float` which
    /// is a whole number in the range of `i64`.
    pub open spec fn to_int(self) -> Result<i64, Error> {
        match self {
            CellValue::Int(i) => Ok(i),
            CellValue::Float(x) => match x.exact_integer() {
                Some(i) => Ok(i),
                None => Err(self.refusal(ValueKind::Int)),
            },
            _ => Err(self.refusal(ValueKind::Int)),
        }
    }

    /// The cell as a number: the number of a `Float`, and that of an `Int` whose value
    /// some binary64 number has exactly.
    pub open spec fn to_float(self) -> Result<Binary64, Error> {
        match self {
            CellValue::Float(x) => Ok(x),
            CellValue::Int(i) => match Binary64::of_integer(i) {
                Some(x) => Ok(x),
                None => Err(self.refusal(ValueKind::Float)),
            },
            _ => Err(self.refusal(ValueKind::Float)),
        }
    }

    /// What a conversion gives when the caller names a default: the default for an empty
    /// cell, and for every other cell what the conversion gives without one.
    pub open spec fn or_default<T>(self, converted: Result<T, Error>, default: T) -> Result<
        T,
        Error,
    > {
        if self is Empty {
            Ok(default)
        } else {
            converted
        }
    }

    /// The cell as a text: the text of a `String`.
    pub open spec fn to_text(self) -> Result<String, Error> {
        match self {
            CellValue::String(text) => Ok(text),
            _ => Err(self.refusal(ValueKind::String)),
        }
    }

    /// The cell as a truth value: that of a `Bool`.
    pub open spec fn to_bool(self) -> Result<bool, Error> {
        match self {
            CellValue::Bool(b) => Ok(b),
            _ => Err(self.refusal(ValueKind::Bool)),
        }
    }

    /// The cell as a timestamp: the serial of a `DateTime`, resolved against the date
    /// system, and [`Error::NotReady`] where the date system is not known.
    pub open spec fn to_datetime(self, system: Option<DateSystem>) -> Result<DateTime, Error> {
        match self {
            CellValue::DateTime(serial) => match system {
                Some(s) => Ok(serial.datetime(s)),
                None => Err(Error::NotReady),
            },
            _ => Err(self.refusal(ValueKind::DateTime)),
        }
    }

    /// The cell as a length of time: the serial of a `Duration`, split into days and the
    /// rest, and [`Error::NotReady`] where the date system is not known.
    pub open spec fn to_duration(self, system: Option<DateSystem>) -> Result<TimeSpan, Error> {
        match self {
            CellValue::Duration(serial) => match system {
                Some(_) => Ok(serial.time_span()),
                None => Err(Error::NotReady),
            },
            _ => Err(self.refusal(ValueKind::Duration)),
        }
    }

    /// The value of a number cell. A number whose format says that it stands for a point
    /// in time or a length of time is one only where the date system of the document is
    /// known and the number has a serial; until then, and otherwise, it is a number.
    pub open spec fn of_number(
        number: Binary64,
        format: NumberFormat,
        system: Option<DateSystem>,
    ) -> CellValue {
        if format == NumberFormat::General || system is None {
            CellValue::Float(number)
        } else {
            match Serial::of_days(number) {
                Some(serial) => if format == NumberFormat::DateTime {
                    CellValue::DateTime(serial)
                } else {
                    CellValue::Duration(serial)
                },
                None => CellValue::Float(number),
            }
        }
    }

    /// The value of a number cell: a `Float`, or, for a number that stands for a point in
    /// time or a length of time in a document whose date system is known, a `DateTime`
    /// or a `Duration` with the number's serial. A number without a serial, such as an
    /// infinity, stays a `Float`.
    pub fn from_number(number: Binary64, format: NumberFormat, system: Option<DateSystem>) -> (r:
        CellValue)
        ensures
            r == CellValue::of_number(number, format, system),
    {
        match (format, system) {
            (NumberFormat::General, _) => CellValue::Float(number),
            (_, None) => CellValue::Float(number),
            (NumberFormat::DateTime, Some(_)) => match Serial::from_days(number) {
                Some(serial) => CellValue::DateTime(serial),
                None => CellValue::Float(number),
            },
            (NumberFormat::Duration, Some(_)) => match Serial::from_days(number) {
                Some(serial) => CellValue::Duration(serial),
                None => CellValue::Float(number),
            },
        }
    }

    /// The kind of the value.
    pub fn kind(&self) -> (r: ValueKind)
        ensures
            r == self.kind_of(),
    {
        match self {
            CellValue::Int(_) => ValueKind::Int,
            CellValue::Float(_) => ValueKind::Float,
            CellValue::String(_) => ValueKind::String,
            CellValue::Bool(_) => ValueKind::Bool,
            CellValue::DateTime(_) => ValueKind::DateTime,
            CellValue::Duration(_) => ValueKind::Duration,
            CellValue::Error(_) => ValueKind::Error,
            CellValue::Empty => ValueKind::Empty,
        }
    }

    /// Whether the cell is empty. A cell with an empty text is not.
    pub fn is_empty(&self) -> (r: bool)
        ensures
            r == (*self is Empty),
    {
        match self {
            CellValue::Empty => true,
            _ => false,
        }
    }

    /// The error for a cell that cannot give a value of kind `expected`.
    fn refuse(&self, expected: ValueKind) -> (r: Error)
        ensures
            r == self.refusal(expected),
    {
        match self {
            CellValue::Empty => Error::EmptyCell,
            _ => Error::TypeMismatch(expected, self.kind()),
        }
    }

    /// The cell's value, or the error code that the cell holds in its place. This is the
    /// one way to an error code: every conversion refuses a cell that holds one.
    pub fn value_or_error(&self) -> (r: Result<&CellValue, CellErrorCode>)
        ensures
            match *self {
                CellValue::Error(code) => r == Err::<&CellValue, CellErrorCode>(code),
                _ => r == Ok::<&CellValue, CellErrorCode>(self),
            },
    {
        match self {
            CellValue::Error(code) => Err(*code),
            _ => Ok(self),
        }
    }

    /// The cell as a whole number. A `Float` converts only where it is a whole number in
    /// the range of `i64`: nothing is rounded. An empty cell gives [`Error::EmptyCell`],
    /// every other cell [`Error::TypeMismatch`].
    pub fn as_int(&self) -> (r: Result<i64, Error>)
        ensures
            r == self.to_int(),
    {
        match self {
            CellValue::Int(i) => Ok(*i),
            CellValue::Float(x) => match x.to_integer() {
                Some(i) => Ok(i),
                None => Err(self.refuse(ValueKind::Int)),
            },
            _ => Err(self.refuse(ValueKind::Int)),
        }
    }

    /// As [`CellValue::as_int`], but an empty cell gives `default`.
    pub fn as_int_or(&self, default: i64) -> (r: Result<i64, Error>)
        ensures
            r == self.or_default(self.to_int(), default),
    {
        match self {
            CellValue::Empty => Ok(default),
            _ => self.as_int(),
        }
    }

    /// The cell as a number. An `Int` converts only where a binary64 number has exactly
    /// its value: nothing is rounded, and zero is given as positive zero. An empty cell
    /// gives [`Error::EmptyCell`], every other cell [`Error::TypeMismatch`].
    pub fn as_float(&self) -> (r: Result<Binary64, Error>)
        ensures
            r == self.to_float(),
            *self matches CellValue::Int(i) ==> match r {
                Ok(x) => x.exact_integer() == Some(i),
                Err(_) => forall|x: Binary64| x.exact_integer() != Some(i),
            },
    {
        match self {
            CellValue::Float(x) => Ok(*x),
            CellValue::Int(i) => match Binary64::from_integer(*i) {
                Some(x) => Ok(x),
                None => Err(self.refuse(ValueKind::Float)),
            },
            _ => Err(self.refuse(ValueKind::Float)),
        }
    }

    /// As [`CellValue::as_float`], but an empty cell gives `default`.
    pub fn as_float_or(&self, default: Binary64) -> (r: Result<Binary64, Error>)
        ensures
            r == self.or_default(self.to_float(), default),
    {
        match self {
            CellValue::Empty => Ok(default),
            _ => self.as_float(),
        }
    }

    /// The cell as a text: the text of a `String`, unchanged. An empty cell gives
    /// [`Error::EmptyCell`], every other cell [`Error::TypeMismatch`].
    pub fn as_string(&self) -> (r: Result<String, Error>)
        ensures
            r == self.to_text(),
    {
        match self {
            CellValue::String(text) => Ok(text.clone()),
            _ => Err(self.refuse(ValueKind::String)),
        }
    }

    /// As [`CellValue::as_string`], but an empty cell gives `default`.
    pub fn as_string_or(&self, default: String) -> (r: Result<String, Error>)
        ensures
            r == self.or_default(self.to_text(), default),
    {
        match self {
            CellValue::Empty => Ok(default),
            _ => self.as_string(),
        }
    }

    /// The cell as a truth value: that of a `Bool`. An empty cell gives
    /// [`Error::EmptyCell`], every other cell [`Error::TypeMismatch`].
    pub fn as_bool(&self) -> (r: Result<bool, Error>)
        ensures
            r == self.to_bool(),
    {
        match self {
            CellValue::Bool(b) => Ok(*b),
            _ => Err(self.refuse(ValueKind::Bool)),
        }
    }

    /// As [`CellValue::as_bool`], but an empty cell gives `default`.
    pub fn as_bool_or(&self, default: bool) -> (r: Result<bool, Error>)
        ensures
            r == self.or_default(self.to_bool(), default),
    {
        match self {
            CellValue::Empty => Ok(default),
            _ => self.as_bool(),
        }
    }

    /// The cell as a calendar timestamp: the serial of a `DateTime`, resolved against the
    /// document's date system. Where the cell is a `DateTime` and the date system is not
    /// known yet, the result is [`Error::NotReady`]. An empty cell gives
    /// [`Error::EmptyCell`], every other cell [`Error::TypeMismatch`].
    pub fn as_datetime(&self, system: Option<DateSystem>) -> (r: Result<DateTime, Error>)
        ensures
            r == self.to_datetime(system),
            r matches Ok(dt) ==> dt.wf(),
    {
        match self {
            CellValue::DateTime(serial) => match system {
                Some(s) => Ok(serial.to_datetime(s)),
                None => Err(Error::NotReady),
            },
            _ => Err(self.refuse(ValueKind::DateTime)),
        }
    }

    /// As [`CellValue::as_datetime`], but an empty cell gives `default`.
    pub fn as_datetime_or(&self, system: Option<DateSystem>, default: DateTime) -> (r: Result<
        DateTime,
        Error,
    >)
        ensures
            r == self.or_default(self.to_datetime(system), default),
    {
        match self {
            CellValue::Empty => Ok(default),
            _ => self.as_datetime(system),
        }
    }

    /// The cell as a length of time: the serial of a `Duration`, split into whole days
    /// and the rest of a day. Where the cell is a `Duration` and the date system is not
    /// known yet, the result is [`Error::NotReady`]. An empty cell gives
    /// [`Error::EmptyCell`], every other cell [`Error::TypeMismatch`].
    pub fn as_duration(&self, system: Option<DateSystem>) -> (r: Result<TimeSpan, Error>)
        ensures
            r == self.to_duration(system),
            r matches Ok(span) ==> span.wf(),
    {
        match self {
            CellValue::Duration(serial) => match system {
                Some(_) => Ok(serial.to_time_span()),
                None => Err(Error::NotReady),
            },
            _ => Err(self.refuse(ValueKind::Duration)),
        }
    }

    /// As [`CellValue::as_duration`], but an empty cell gives `default`.
    pub fn as_duration_or(&self, system: Option<DateSystem>, default: TimeSpan) -> (r: Result<
        TimeSpan,
        Error,
    >)
        ensures
            r == self.or_default(self.to_duration(system), default),
    {
        match self {
            CellValue::Empty => Ok(default),
            _ => self.as_duration(system),
        }
    }
}

/// An empty cell gives no value of any kind, only [`Error::EmptyCell`]; asked with a
/// default, it gives the default.
pub proof fn lemma_empty_cell_is_strict<T>(
    converted: Result<T, Error>,
    default: T,
    system: Option<DateSystem>,
)
    ensures
        CellValue::Empty.to_int() == Err::<i64, Error>(Error::EmptyCell),
        CellValue::Empty.to_float() == Err::<Binary64, Error>(Error::EmptyCell),
        CellValue::Empty.to_text() == Err::<String, Error>(Error::EmptyCell),
        CellValue::Empty.to_bool() == Err::<bool, Error>(Error::EmptyCell),
        CellValue::Empty.to_datetime(system) == Err::<DateTime, Error>(Error::EmptyCell),
        CellValue::Empty.to_duration(system) == Err::<TimeSpan, Error>(Error::EmptyCell),
        CellValue::Empty.or_default(converted, default) == Ok::<T, Error>(default),
{
}

/// A default is given for the empty cell only: every other cell gives with a default what
/// it gives without one.
pub proof fn lemma_default_is_for_empty_only<T>(
    cell: CellValue,
    converted: Result<T, Error>,
    default: T,
)
    requires
        !(cell is Empty),
    ensures
        cell.or_default(converted, default) == converted,
{
}

/// A cell that holds a point in time gives, in a document whose date system is known, a
/// timestamp whose serial in that date system is the serial of the cell; and a cell that
/// holds a length of time gives a length whose serial is that of the cell.
pub proof fn lemma_cell_round_trip(serial: Serial, system: DateSystem)
    ensures
        CellValue::DateTime(serial).to_datetime(Some(system)) matches Ok(stamp) && stamp.wf()
            && stamp.serial(system) == Some(serial),
        CellValue::Duration(serial).to_duration(Some(system)) matches Ok(span) && span.wf()
            && span.serial() == Some(serial),
{
    lemma_serial_round_trip(serial, system);
    lemma_span_round_trip(serial);
}

/// A cell that holds an error code gives no value of any kind.
pub proof fn lemma_error_code_never_converts(code: CellErrorCode, system: Option<DateSystem>)
    ensures
        CellValue::Error(code).to_int() is Err,
        CellValue::Error(code).to_float() is Err,
        CellValue::Error(code).to_text() is Err,
        CellValue::Error(code).to_bool() is Err,
        CellValue::Error(code).to_datetime(system) is Err,
        CellValue::Error(code).to_duration(system) is Err,
{
}

} // verus!
