//! Rows as a decoder hands them over, and the rows of values that are made of them.
//!
//! A decoder gives a row as its width and the records of the cells that the document
//! stores, each with its column. Filling a row puts each record's value at its column and
//! an empty value at every column without a record.

use crate::error::RecordFault;
use crate::value::CellValue;
use vstd::prelude::*;

verus! {

/// A cell that a document stores: its column, counted from 0, and its value.
#[derive(Debug, PartialEq, Eq)]
pub struct CellRecord {
    /// The column of the cell, counted from 0.
    pub col: usize,
    /// The value of the cell.
    pub value: CellValue,
}

/// A row as a decoder hands it over: the width that the decoder reports for it, and the
/// records of its stored cells from left to right.
#[derive(Debug, PartialEq, Eq)]
pub struct RawRow {
    /// The number of cells that the decoder reports for the row.
    pub width: usize,
    /// The stored cells, by rising column.
    pub cells: Vec<CellRecord>,
}

/// The first record of a row that is at fault.
#[derive(Clone, Copy, Debug, PartialEq, Eq, Structural)]
pub struct RowFault {
    /// The index of the record among the records of its row.
    pub index: usize,
    /// What is wrong with the record.
    pub fault: RecordFault,
}

impl Clone for CellRecord {
    fn clone(&self) -> (r: Self)
        ensures
            r == *self,
    {
        CellRecord { col: self.col, value: self.value.clone() }
    }
}

/// The number of cells of a filled row: the row's reported width, but no more than the
/// columns that the sheet declares.
pub open spec fn filled_width(width: usize, columns: Option<usize>) -> int {
    match columns {
        Some(c) => if c < width {
            c as int
        } else {
            width as int
        },
        None => width as int,
    }
}

/// What is wrong with the record at `index`, if anything: its column must lie behind that
/// of the record before it, and below `limit`.
pub open spec fn fault_at(cells: Seq<CellRecord>, index: int, limit: int) -> Option<RecordFault> {
    if index > 0 && cells[index].col <= cells[index - 1].col {
        Some(RecordFault::OutOfOrder)
    } else if cells[index].col >= limit {
        Some(RecordFault::OutsideRow)
    } else {
        None
    }
}

/// The first record that is at fault, if any.
pub open spec fn first_fault(cells: Seq<CellRecord>, limit: int) -> Option<RowFault>
    decreases cells.len(),
{
    if cells.len() == 0 {
        None
    } else {
        match first_fault(cells.drop_last(), limit) {
            Some(found) => Some(found),
            None => match fault_at(cells, cells.len() - 1, limit) {
                Some(fault) => Some(RowFault { index: (cells.len() - 1) as usize, fault }),
                None => None,
            },
        }
    }
}

/// The columns of the records rise strictly and lie below `limit`.
pub open spec fn well_formed(cells: Seq<CellRecord>, limit: int) -> bool {
    &&& forall|i: int, j: int| 0 <= i < j < cells.len() ==> cells[i].col < cells[j].col
    &&& forall|i: int| 0 <= i < cells.len() ==> (#[trigger] cells[i]).col < limit
}

/// The value at a column: that of the record with this column, and empty where there is
/// no such record.
pub open spec fn value_at(cells: Seq<CellRecord>, col: int) -> CellValue {
    if exists|i: int| 0 <= i < cells.len() && (#[trigger] cells[i]).col == col {
        cells[choose|i: int| 0 <= i < cells.len() && (#[trigger] cells[i]).col == col].value
    } else {
        CellValue::Empty
    }
}

/// The filled row: `limit` cells, each with the value at its column.
pub open spec fn filled(cells: Seq<CellRecord>, limit: int) -> Seq<CellValue> {
    Seq::new(limit as nat, |col: int| value_at(cells, col))
}

impl RawRow {
    /// The first record of the row that is at fault in a sheet of `columns` declared
    /// columns, if any.
    pub open spec fn fault(self, columns: Option<usize>) -> Option<RowFault> {
        first_fault(self.cells@, filled_width(self.width, columns))
    }

    /// The row's cells in a sheet of `columns` declared columns.
    pub open spec fn values(self, columns: Option<usize>) -> Seq<CellValue> {
        filled(self.cells@, filled_width(self.width, columns))
    }

    /// The first record of the row that is at fault in a sheet of `columns` declared
    /// columns: `None` exactly when the row can be filled.
    pub fn check(&self, columns: Option<usize>) -> (r: Option<RowFault>)
        ensures
            r == self.fault(columns),
            r is None <==> well_formed(self.cells@, filled_width(self.width, columns)),
    {
        check(&self.cells, limit_of(self.width, columns))
    }

    /// Fills the row for a sheet of `columns` declared columns. The result has the row's
    /// reported width, cut to the declared columns; each record's value stands at its
    /// column and every other cell is empty. A record out of order or outside the filled
    /// row makes the whole row fail: nothing is dropped or cut silently.
    pub fn fill(&self, columns: Option<usize>) -> (r: Result<Vec<CellValue>, RowFault>)
        ensures
            r is Ok <==> well_formed(self.cells@, filled_width(self.width, columns)),
            r is Ok <==> self.fault(columns) is None,
            match r {
                Ok(values) => values@ == self.values(columns),
                Err(fault) => self.fault(columns) == Some(fault),
            },
    {
        let limit = limit_of(self.width, columns);
        match check(&self.cells, limit) {
            Some(fault) => Err(fault),
            None => Ok(fill_checked(&self.cells, limit)),
        }
    }

    /// Fills a row that is known to be without fault.
    pub(crate) fn fill_checked(&self, columns: Option<usize>) -> (r: Vec<CellValue>)
        requires
            well_formed(self.cells@, filled_width(self.width, columns)),
        ensures
            r@ == self.values(columns),
    {
        fill_checked(&self.cells, limit_of(self.width, columns))
    }
}

/// The width of a filled row.
pub fn limit_of(width: usize, columns: Option<usize>) -> (r: usize)
    ensures
        r == filled_width(width, columns),
        r <= width,
        columns matches Some(c) ==> r <= c,
{
    match columns {
        Some(c) => if c < width {
            c
        } else {
            width
        },
        None => width,
    }
}

/// The records are without fault exactly when they are well formed.
pub proof fn lemma_no_fault(cells: Seq<CellRecord>, limit: int)
    requires
        cells.len() <= usize::MAX,
    ensures
        first_fault(cells, limit) is None <==> well_formed(cells, limit),
        first_fault(cells, limit) matches Some(found) ==> found.index < cells.len() && fault_at(
            cells,
            found.index as int,
            limit,
        ) == Some(found.fault) && well_formed(cells.take(found.index as int), limit),
    decreases cells.len(),
{
    if cells.len() > 0 {
        let front = cells.drop_last();
        let last = cells.len() - 1;
        lemma_no_fault(front, limit);
        assert forall|i: int| 0 <= i < front.len() implies front[i] == cells[i] by {}
        match first_fault(front, limit) {
            Some(found) => {
                assert(front.take(found.index as int) =~= cells.take(found.index as int));
                assert(fault_at(front, found.index as int, limit) == fault_at(
                    cells,
                    found.index as int,
                    limit,
                ));
                if well_formed(cells, limit) {
                    assert(well_formed(front, limit));
                }
            },
            None => {
                assert(front =~= cells.take(last));
                if fault_at(cells, last, limit) is None {
                    assert forall|i: int, j: int| 0 <= i < j < cells.len() implies cells[i].col
                        < cells[j].col by {
                        if j == last && i < last - 1 {
                            assert(front[i].col < front[last - 1].col);
                        }
                    }
                }
            },
        }
    }
}

/// The first record at fault, if any.
fn check(cells: &Vec<CellRecord>, limit: usize) -> (r: Option<RowFault>)
    ensures
        r == first_fault(cells@, limit as int),
        r is None <==> well_formed(cells@, limit as int),
{
    let mut i: usize = 0;
    while i < cells.len()
        invariant
            i <= cells.len(),
            first_fault(cells@.take(i as int), limit as int) is None,
        decreases cells.len() - i,
    {
        let fault: Option<RecordFault> = if i > 0 && cells[i].col <= cells[i - 1].col {
            Some(RecordFault::OutOfOrder)
        } else if cells[i].col >= limit {
            Some(RecordFault::OutsideRow)
        } else {
            None
        };
        proof {
            let upto = cells@.take(i as int + 1);
            assert(upto.drop_last() =~= cells@.take(i as int));
            assert(fault_at(upto, i as int, limit as int) == fault);
            if fault is Some {
                lemma_fault_stays(cells@, i as int + 1, limit as int);
            }
        }
        match fault {
            Some(fault) => {
                proof {
                    lemma_no_fault(cells@, limit as int);
                }
                return Some(RowFault { index: i, fault });
            },
            None => {},
        }
        i = i + 1;
    }
    proof {
        assert(cells@.take(i as int) =~= cells@);
        lemma_no_fault(cells@, limit as int);
    }
    None
}

/// A fault among the first `n` records is the first fault of all the records.
proof fn lemma_fault_stays(cells: Seq<CellRecord>, n: int, limit: int)
    requires
        0 <= n <= cells.len(),
        first_fault(cells.take(n), limit) is Some,
    ensures
        first_fault(cells, limit) == first_fault(cells.take(n), limit),
    decreases cells.len() - n,
{
    if n < cells.len() {
        let next = cells.take(n + 1);
        assert(next.drop_last() =~= cells.take(n));
        lemma_fault_stays(cells, n + 1, limit);
    } else {
        assert(cells.take(n) =~= cells);
    }
}

/// Fills a row whose records are well formed.
fn fill_checked(cells: &Vec<CellRecord>, limit: usize) -> (r: Vec<CellValue>)
    requires
        well_formed(cells@, limit as int),
    ensures
        r@ == filled(cells@, limit as int),
{
    let mut out: Vec<CellValue> = Vec::new();
    let mut next: usize = 0;
    let mut col: usize = 0;
    while col < limit
        invariant
            col <= limit,
            next <= cells.len(),
            well_formed(cells@, limit as int),
            out@.len() == col,
            forall|c: int| 0 <= c < col ==> out@[c] == value_at(cells@, c),
            forall|i: int| 0 <= i < next ==> (#[trigger] cells@[i]).col < col,
            forall|i: int| next <= i < cells.len() ==> (#[trigger] cells@[i]).col >= col,
        decreases limit - col,
    {
        if next < cells.len() && cells[next].col == col {
            proof {
                let found = choose|i: int|
                    0 <= i < cells@.len() && (#[trigger] cells@[i]).col == col;
                assert(found == next) by {
                    if found < next {
                        assert(cells@[found].col < cells@[next as int].col);
                    }
                    if found > next {
                        assert(cells@[next as int].col < cells@[found].col);
                    }
                }
            }
            out.push(cells[next].value.clone());
            proof {
                assert forall|i: int| next + 1 <= i < cells.len() implies (
                #[trigger] cells@[i]).col >= col + 1 by {
                    assert(cells@[next as int].col < cells@[i].col);
                }
            }
            next = next + 1;
        } else {
            proof {
                assert(value_at(cells@, col as int) == CellValue::Empty);
            }
            out.push(CellValue::Empty);
        }
        col = col + 1;
    }
    proof {
        assert(out@ =~= filled(cells@, limit as int));
    }
    out
}

/// A filled row is no wider than the declared columns, and holds at each column the
/// value of the record with that column, and an empty value where the row has no such
/// record.
pub proof fn lemma_filled_row(row: RawRow, columns: Option<usize>, col: int)
    requires
        0 <= col < row.values(columns).len(),
    ensures
        row.values(columns).len() <= row.width,
        columns matches Some(c) ==> row.values(columns).len() <= c,
        (forall|i: int| 0 <= i < row.cells@.len() ==> (#[trigger] row.cells@[i]).col != col)
            ==> row.values(columns)[col] == CellValue::Empty,
        forall|i: int|
            0 <= i < row.cells@.len() && (#[trigger] row.cells@[i]).col == col && well_formed(
                row.cells@,
                filled_width(row.width, columns),
            ) ==> row.values(columns)[col] == row.cells@[i].value,
{
    let cells = row.cells@;
    assert forall|i: int|
        0 <= i < cells.len() && (#[trigger] cells[i]).col == col && well_formed(
            cells,
            filled_width(row.width, columns),
        ) implies row.values(columns)[col] == cells[i].value by {
        let found = choose|k: int| 0 <= k < cells.len() && (#[trigger] cells[k]).col == col;
        if found < i {
            assert(cells[found].col < cells[i].col);
        }
        if found > i {
            assert(cells[i].col < cells[found].col);
        }
    }
}

} // verus!
