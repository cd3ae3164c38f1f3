//! Typed cell values, sheets and workbooks for spreadsheet ingestion.
//!
//! A format decoder hands over sheet names and sparse rows of cell records; this crate
//! turns them into a uniform grid of typed values, resolves sheets by name and by index,
//! detects the container format of a byte stream from its leading bytes, and reports every
//! failure as a value of one closed error type. Every function is verified: the contracts
//! say what is returned for each input, and no function panics.

pub mod binary64;
pub mod calendar;
pub mod datetime;
pub mod error;
pub mod source;
pub mod value;
pub mod row;
pub mod sheet;
pub mod workbook;
pub mod load;
