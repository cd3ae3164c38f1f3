//! The errors that loading a document and reading its cells can give.
//!
//! Every failure is returned as a value of [`Error`]. What a format decoder reports is
//! wrapped, with the format that was being decoded, and never dropped.

use crate::source::Format;
use crate::value::ValueKind;
use vstd::prelude::*;

verus! {

/// What is wrong with a record of a row.
#[derive(Clone, Copy, Debug, PartialEq, Eq, Structural)]
pub enum RecordFault {
    /// The record's column is not behind that of the record before it.
    OutOfOrder,
    /// The record's column lies outside the row, or outside the sheet's declared columns.
    OutsideRow,
}

/// Why a document is malformed.
#[derive(Debug, PartialEq, Eq)]
pub enum Detail {
    /// The decoder found the container or its content invalid; the text is the decoder's.
    Decoder(String),
    /// The document uses a feature that the decoder does not read; the text is the
    /// decoder's.
    Unsupported(String),
    /// Two sheets of the document have this name.
    DuplicateSheet(String),
    /// The record at `index` of row `row` of the sheet at `sheet` is at fault.
    Record { sheet: usize, row: usize, index: usize, fault: RecordFault },
}

/// The errors of this crate.
#[derive(Debug, PartialEq, Eq)]
pub enum Error {
    /// The leading bytes match no known container format.
    UnsupportedFormat,
    /// Reading the path or the stream failed; the text is the cause.
    IoError(String),
    /// The container format was recognised and its content is invalid.
    MalformedDocument(Format, Detail),
    /// The workbook has no sheet of this name.
    SheetNotFound(String),
    /// The workbook has no sheet, or the sheet no row or column, at this index.
    IndexOutOfRange(usize),
    /// A value of the first kind was asked of a cell of the second kind.
    TypeMismatch(ValueKind, ValueKind),
    /// A value was asked of an empty cell, and no default was given.
    EmptyCell,
    /// A point in time or a length of time was asked for before the document's date
    /// system was known.
    NotReady,
}

/// How a format decoder can fail.
#[derive(Debug, PartialEq, Eq)]
pub enum DecodeFailure {
    /// Reading the bytes failed.
    Io(String),
    /// The container or its content is invalid.
    Malformed(String),
    /// The document uses a feature that the decoder does not read.
    Unsupported(String),
}

impl Clone for Detail {
    fn clone(&self) -> (r: Self)
        ensures
            r == *self,
    {
        match self {
            Detail::Decoder(text) => Detail::Decoder(text.clone()),
            Detail::Unsupported(text) => Detail::Unsupported(text.clone()),
            Detail::DuplicateSheet(name) => Detail::DuplicateSheet(name.clone()),
            Detail::Record { sheet, row, index, fault } => Detail::Record {
                sheet: *sheet,
                row: *row,
                index: *index,
                fault: *fault,
            },
        }
    }
}

impl Clone for Error {
    fn clone(&self) -> (r: Self)
        ensures
            r == *self,
    {
        match self {
            Error::UnsupportedFormat => Error::UnsupportedFormat,
            Error::IoError(cause) => Error::IoError(cause.clone()),
            Error::MalformedDocument(format, detail) => Error::MalformedDocument(
                *format,
                detail.clone(),
            ),
            Error::SheetNotFound(name) => Error::SheetNotFound(name.clone()),
            Error::IndexOutOfRange(index) => Error::IndexOutOfRange(*index),
            Error::TypeMismatch(expected, actual) => Error::TypeMismatch(*expected, *actual),
            Error::EmptyCell => Error::EmptyCell,
            Error::NotReady => Error::NotReady,
        }
    }
}

impl Error {
    /// The error that stands for a decoder's failure on a document of `format`.
    pub open spec fn of_failure(format: Format, failure: DecodeFailure) -> Error {
        match failure {
            DecodeFailure::Io(cause) => Error::IoError(cause),
            DecodeFailure::Malformed(text) => Error::MalformedDocument(
                format,
                Detail::Decoder(text),
            ),
            DecodeFailure::Unsupported(text) => Error::MalformedDocument(
                format,
                Detail::Unsupported(text),
            ),
        }
    }

    /// Wraps a decoder's failure on a document of `format`. A failure to read becomes
    /// [`Error::IoError`]; every other failure becomes [`Error::MalformedDocument`] with
    /// `format` and the decoder's text, and never [`Error::UnsupportedFormat`]: the format
    /// was recognised.
    pub fn report(format: Format, failure: DecodeFailure) -> (r: Error)
        ensures
            r == Error::of_failure(format, failure),
            !(failure is Io) ==> (r matches Error::MalformedDocument(f, _) && f == format),
    {
        match failure {
            DecodeFailure::Io(cause) => Error::IoError(cause),
            DecodeFailure::Malformed(text) => Error::MalformedDocument(
                format,
                Detail::Decoder(text),
            ),
            DecodeFailure::Unsupported(text) => Error::MalformedDocument(
                format,
                Detail::Unsupported(text),
            ),
        }
    }
}

} // verus!
