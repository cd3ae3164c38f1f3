//! A sheet: a grid of cell values, read row by row.
//!
//! A decoder hands a sheet over as its name, its visibility, the dimension that the
//! document declares for it, if any, and its rows of records. Decoding checks every row
//! and gives a [`Sheet`]; a sheet with a row at fault gives no sheet at all. The rows of a
//! sheet are read through a [`RowCursor`], once and forward.

use crate::error::{Error, RecordFault};
use crate::row::{filled_width, well_formed, RawRow, RowFault};
use crate::value::CellValue;
use vstd::prelude::*;

verus! {

/// Whether a sheet is shown. It says nothing of whether the sheet can be read: every
/// sheet can.
#[derive(Clone, Copy, Debug, PartialEq, Eq, Structural)]
pub enum Visibility {
    /// The sheet is shown.
    Visible,
    /// The sheet is hidden, and the user can show it.
    Hidden,
    /// The sheet is hidden, and only a program can show it.
    VeryHidden,
}

/// The size that a document declares for a sheet.
#[derive(Clone, Copy, Debug, PartialEq, Eq, Structural)]
pub struct Dimension {
    /// The declared number of rows.
    pub rows: usize,
    /// The declared number of columns. No row of the sheet is wider.
    pub columns: usize,
}

/// How the rows of a sheet are kept once it is decoded.
#[derive(Clone, Copy, Debug, PartialEq, Eq, Structural)]
pub enum Layout {
    /// Every row is filled when the sheet is decoded.
    Materialized,
    /// A row is filled when a cursor reaches it.
    Streamed,
}

/// A sheet as a decoder hands it over.
#[derive(Debug, PartialEq, Eq)]
pub struct SheetData {
    /// The name, by which the sheet is found in its workbook.
    pub name: String,
    /// Whether the sheet is shown.
    pub visibility: Visibility,
    /// The size that the document declares, where it declares one.
    pub dimension: Option<Dimension>,
    /// How the rows are to be kept once the sheet is decoded.
    pub layout: Layout,
    /// The rows from top to bottom.
    pub rows: Vec<RawRow>,
}

/// The first record of a sheet that is at fault.
#[derive(Clone, Copy, Debug, PartialEq, Eq, Structural)]
pub struct SheetFault {
    /// The index of the row among the rows of its sheet.
    pub row: usize,
    /// The index of the record among the records of its row.
    pub index: usize,
    /// What is wrong with the record.
    pub fault: RecordFault,
}

/// What a sheet is: its place among the sheets of its document, its name, its visibility,
/// its declared dimension and its rows of values.
pub struct SheetModel {
    /// The place of the sheet among the sheets of its document, counted from 0.
    pub index: usize,
    pub name: Seq<char>,
    pub visibility: Visibility,
    pub dimension: Option<Dimension>,
    pub grid: Seq<Seq<CellValue>>,
}

/// The rows of a decoded sheet.
#[derive(Debug)]
enum RowSource {
    Materialized(Vec<Vec<CellValue>>),
    Streamed(Vec<RawRow>),
}

/// A decoded sheet.
#[derive(Debug)]
pub struct Sheet {
    index: usize,
    name: String,
    visibility: Visibility,
    dimension: Option<Dimension>,
    source: RowSource,
}

/// A place in the rows of a sheet. It moves forward only, and keeps the row that it
/// reached last.
#[derive(Debug)]
pub struct RowCursor {
    consumed: usize,
    current: Vec<CellValue>,
}

/// The declared number of columns, if a dimension is declared.
pub open spec fn columns_of(dimension: Option<Dimension>) -> Option<usize> {
    match dimension {
        Some(d) => Some(d.columns),
        None => None,
    }
}

/// The first fault among the first `n` rows.
pub open spec fn fault_before(rows: Seq<RawRow>, columns: Option<usize>, n: int) -> Option<
    SheetFault,
>
    decreases n,
{
    if n <= 0 {
        None
    } else {
        match fault_before(rows, columns, n - 1) {
            Some(found) => Some(found),
            None => match rows[n - 1].fault(columns) {
                Some(fault) => Some(
                    SheetFault { row: (n - 1) as usize, index: fault.index, fault: fault.fault },
                ),
                None => None,
            },
        }
    }
}

/// The rows as sequences of values.
pub open spec fn grid_of(rows: Seq<Vec<CellValue>>) -> Seq<Seq<CellValue>> {
    Seq::new(rows.len(), |i: int| rows[i]@)
}

impl SheetData {
    /// The declared number of columns, if a dimension is declared.
    pub open spec fn columns(self) -> Option<usize> {
        columns_of(self.dimension)
    }

    /// The first record of the sheet that is at fault, if any.
    pub open spec fn fault(self) -> Option<SheetFault> {
        fault_before(self.rows@, self.columns(), self.rows@.len() as int)
    }

    /// The rows of the sheet, each filled.
    pub open spec fn grid(self) -> Seq<Seq<CellValue>> {
        Seq::new(self.rows@.len(), |r: int| self.rows@[r].values(self.columns()))
    }

    /// What the sheet is, once decoded, as the sheet at `index` of its document.
    pub open spec fn model(self, index: usize) -> SheetModel {
        SheetModel {
            index,
            name: self.name@,
            visibility: self.visibility,
            dimension: self.dimension,
            grid: self.grid(),
        }
    }
}

impl RowSource {
    spec fn grid(self, columns: Option<usize>) -> Seq<Seq<CellValue>> {
        match self {
            RowSource::Materialized(rows) => grid_of(rows@),
            RowSource::Streamed(raw) => Seq::new(raw@.len(), |r: int| raw@[r].values(columns)),
        }
    }

    spec fn wf(self, columns: Option<usize>) -> bool {
        match self {
            RowSource::Materialized(rows) => forall|r: int|
                0 <= r < rows@.len() ==> (columns matches Some(c) ==> (#[trigger] rows@[r])@.len()
                    <= c),
            RowSource::Streamed(raw) => forall|r: int|
                0 <= r < raw@.len() ==> well_formed(
                    (#[trigger] raw@[r]).cells@,
                    filled_width(raw@[r].width, columns),
                ),
        }
    }
}

impl View for Sheet {
    type V = SheetModel;

    closed spec fn view(&self) -> SheetModel {
        SheetModel {
            index: self.index,
            name: self.name@,
            visibility: self.visibility,
            dimension: self.dimension,
            grid: self.source.grid(columns_of(self.dimension)),
        }
    }
}

impl SheetModel {
    /// The declared number of columns, if a dimension is declared.
    pub open spec fn columns(self) -> Option<usize> {
        columns_of(self.dimension)
    }

    /// The row that a cursor is handed after `consumed` rows: the next row, and nothing
    /// behind the last.
    pub open spec fn row_after(self, consumed: int) -> Option<Seq<CellValue>> {
        if 0 <= consumed < self.grid.len() {
            Some(self.grid[consumed])
        } else {
            None
        }
    }

    /// The rows that a cursor is handed, one by one, after `consumed` rows and until it is
    /// handed nothing.
    pub open spec fn rows_after(self, consumed: int) -> Seq<Seq<CellValue>>
        decreases self.grid.len() - consumed,
    {
        match self.row_after(consumed) {
            Some(row) => seq![row] + self.rows_after(consumed + 1),
            None => Seq::empty(),
        }
    }

    /// The value at a column of a row: the row's value there, and an empty value behind
    /// the row's last cell.
    pub open spec fn value_in(row: Seq<CellValue>, col: int) -> CellValue {
        if 0 <= col < row.len() {
            row[col]
        } else {
            CellValue::Empty
        }
    }
}

/// What a cursor is: the number of rows that it has passed, and the row that it reached
/// last, which is without cells as long as it has reached none.
pub struct CursorModel {
    pub consumed: nat,
    pub current: Seq<CellValue>,
}

impl View for RowCursor {
    type V = CursorModel;

    closed spec fn view(&self) -> CursorModel {
        CursorModel { consumed: self.consumed as nat, current: self.current@ }
    }
}

impl RowCursor {
    /// The number of rows that the cursor has passed.
    pub fn consumed(&self) -> (r: usize)
        ensures
            r == self@.consumed,
    {
        self.consumed
    }
}

/// A copy of a row.
fn copy_row(row: &Vec<CellValue>) -> (r: Vec<CellValue>)
    ensures
        r@ == row@,
{
    let mut out: Vec<CellValue> = Vec::new();
    let mut i: usize = 0;
    while i < row.len()
        invariant
            i <= row.len(),
            out@ == row@.take(i as int),
        decreases row.len() - i,
    {
        out.push(row[i].clone());
        proof {
            assert(out@ =~= row@.take(i as int + 1));
        }
        i = i + 1;
    }
    proof {
        assert(row@.take(i as int) =~= row@);
    }
    out
}

impl Sheet {
    #[verifier::type_invariant]
    spec fn inv(self) -> bool {
        self.source.wf(columns_of(self.dimension))
    }

    /// Decodes the sheet at `index` of a document, counted from 0. Every row is checked,
    /// whatever the layout; the first record at fault makes the whole sheet fail, and no
    /// row of it is handed out.
    pub fn decode(data: SheetData, index: usize) -> (r: Result<Sheet, SheetFault>)
        ensures
            match r {
                Ok(sheet) => data.fault() is None && sheet@ == data.model(index),
                Err(fault) => data.fault() == Some(fault),
            },
    {
        let SheetData { name, visibility, dimension, layout, rows } = data;
        let columns: Option<usize> = match dimension {
            Some(d) => Some(d.columns),
            None => None,
        };
        let mut filled: Vec<Vec<CellValue>> = Vec::new();
        let mut r: usize = 0;
        while r < rows.len()
            invariant
                r <= rows.len(),
                columns == columns_of(dimension),
                columns == data.columns(),
                rows@ == data.rows@,
                fault_before(rows@, columns, r as int) is None,
                forall|k: int|
                    0 <= k < r ==> well_formed(
                        (#[trigger] rows@[k]).cells@,
                        filled_width(rows@[k].width, columns),
                    ),
                layout == Layout::Materialized ==> filled@.len() == r,
                filled@.len() <= r,
                forall|k: int|
                    0 <= k < filled@.len() ==> (#[trigger] filled@[k])@ == rows@[k].values(columns),
            decreases rows.len() - r,
        {
            let found: Option<RowFault> = match layout {
                Layout::Materialized => match rows[r].fill(columns) {
                    Ok(values) => {
                        filled.push(values);
                        None
                    },
                    Err(fault) => Some(fault),
                },
                Layout::Streamed => rows[r].check(columns),
            };
            match found {
                Some(fault) => {
                    proof {
                        assert(fault_before(rows@, columns, r as int + 1) == Some(
                            SheetFault { row: r, index: fault.index, fault: fault.fault },
                        ));
                        lemma_fault_stays(rows@, columns, r as int + 1);
                    }
                    return Err(SheetFault { row: r, index: fault.index, fault: fault.fault });
                },
                None => {},
            }
            r = r + 1;
        }
        let source = match layout {
            Layout::Materialized => RowSource::Materialized(filled),
            Layout::Streamed => RowSource::Streamed(rows),
        };
        proof {
            assert(source.grid(columns) =~= data.grid());
            assert(source.wf(columns)) by {
                if layout == Layout::Materialized {
                    assert forall|k: int| 0 <= k < filled@.len() implies (columns matches Some(c)
                        ==> (#[trigger] filled@[k])@.len() <= c) by {
                        assert(filled@[k]@ == rows@[k].values(columns));
                    }
                }
            }
        }
        Ok(Sheet { index, name, visibility, dimension, source })
    }

    /// The place of the sheet among the sheets of its document, counted from 0.
    pub fn index(&self) -> (r: usize)
        ensures
            r == self@.index,
    {
        self.index
    }

    /// The name of the sheet.
    pub fn name(&self) -> (r: &String)
        ensures
            r@ == self@.name,
    {
        &self.name
    }

    /// The visibility of the sheet.
    pub fn visibility(&self) -> (r: Visibility)
        ensures
            r == self@.visibility,
    {
        self.visibility
    }

    /// The dimension that the document declares for the sheet, if it declares one.
    pub fn dimension(&self) -> (r: Option<Dimension>)
        ensures
            r == self@.dimension,
    {
        self.dimension
    }

    /// The number of rows of the sheet.
    fn height(&self) -> (r: usize)
        ensures
            r == self@.grid.len(),
    {
        match &self.source {
            RowSource::Materialized(rows) => rows.len(),
            RowSource::Streamed(raw) => raw.len(),
        }
    }

    /// The declared number of columns, if a dimension is declared.
    fn columns(&self) -> (r: Option<usize>)
        ensures
            r == self@.columns(),
    {
        match self.dimension {
            Some(d) => Some(d.columns),
            None => None,
        }
    }

    /// The row at `index`.
    fn row(&self, index: usize) -> (r: Vec<CellValue>)
        requires
            index < self@.grid.len(),
        ensures
            r@ == self@.grid[index as int],
            self@.columns() matches Some(c) ==> r@.len() <= c,
    {
        proof {
            use_type_invariant(self);
        }
        match &self.source {
            RowSource::Materialized(rows) => copy_row(&rows[index]),
            RowSource::Streamed(raw) => raw[index].fill_checked(self.columns()),
        }
    }

    /// A cursor before the first row of the sheet.
    pub fn rows(&self) -> (r: RowCursor)
        ensures
            r@ == (CursorModel { consumed: 0, current: Seq::empty() }),
    {
        RowCursor { consumed: 0, current: Vec::new() }
    }

    /// Hands the cursor the next row of the sheet and moves the cursor behind it. Behind
    /// the last row the cursor is handed nothing and stays where it is; that is the end
    /// of the rows, and no error. A row is no wider than the declared columns.
    pub fn next_row(&self, cursor: &mut RowCursor) -> (r: Option<Vec<CellValue>>)
        ensures
            match self@.row_after(old(cursor)@.consumed as int) {
                Some(row) => r matches Some(values) && values@ == row && final(cursor)@
                    == (CursorModel { consumed: old(cursor)@.consumed + 1, current: row }),
                None => r is None && final(cursor)@ == old(cursor)@,
            },
            r matches Some(values) ==> (self@.columns() matches Some(c) ==> values@.len() <= c),
    {
        if cursor.consumed >= self.height() {
            return None;
        }
        let values = self.row(cursor.consumed);
        cursor.current = copy_row(&values);
        cursor.consumed = cursor.consumed + 1;
        Some(values)
    }

    /// All the rows of the sheet, read with a cursor from the first row to the last.
    pub fn to_rows(&self) -> (r: Vec<Vec<CellValue>>)
        ensures
            grid_of(r@) == self@.grid,
            grid_of(r@) == self@.rows_after(0),
    {
        let mut out: Vec<Vec<CellValue>> = Vec::new();
        let mut cursor = self.rows();
        loop
            invariant
                cursor@.consumed <= self@.grid.len(),
                out@.len() == cursor@.consumed,
                forall|i: int| 0 <= i < out@.len() ==> (#[trigger] out@[i])@ == self@.grid[i],
            ensures
                out@.len() == self@.grid.len(),
                forall|i: int| 0 <= i < out@.len() ==> (#[trigger] out@[i])@ == self@.grid[i],
            decreases self@.grid.len() - cursor@.consumed,
        {
            match self.next_row(&mut cursor) {
                Some(values) => {
                    out.push(values);
                },
                None => {
                    break ;
                },
            }
        }
        proof {
            assert(grid_of(out@) =~= self@.grid);
            lemma_single_pass(self@);
        }
        out
    }

    /// The value at a row and a column, for a cursor that reads the sheet forward.
    ///
    /// A column from the declared number of columns on is [`Error::IndexOutOfRange`],
    /// and so is a row before the one that the cursor reached last: the cursor does not
    /// go back. In both cases the cursor stays where it is. Otherwise the cursor moves
    /// forward until it has reached the row. The result is the value of the row at the
    /// column, an empty value where the column lies behind the row's last cell, and
    /// `None` where the row lies behind the last row of the sheet.
    pub fn cell(&self, cursor: &mut RowCursor, row: usize, col: usize) -> (r: Result<
        Option<CellValue>,
        Error,
    >)
        ensures
            self@.columns() matches Some(c) && col >= c ==> r == Err::<Option<CellValue>, Error>(
                Error::IndexOutOfRange(col),
            ) && final(cursor)@ == old(cursor)@,
            !(self@.columns() matches Some(c) && col >= c) ==> {
                let consumed = old(cursor)@.consumed;
                let height = self@.grid.len();
                if row + 1 < consumed {
                    r == Err::<Option<CellValue>, Error>(Error::IndexOutOfRange(row))
                        && final(cursor)@ == old(cursor)@
                } else if row + 1 == consumed {
                    r == Ok::<Option<CellValue>, Error>(
                        Some(SheetModel::value_in(old(cursor)@.current, col as int)),
                    ) && final(cursor)@ == old(cursor)@
                } else if row < height {
                    r == Ok::<Option<CellValue>, Error>(
                        Some(SheetModel::value_in(self@.grid[row as int], col as int)),
                    ) && final(cursor)@ == (CursorModel {
                        consumed: (row + 1) as nat,
                        current: self@.grid[row as int],
                    })
                } else if consumed < height {
                    r == Ok::<Option<CellValue>, Error>(None) && final(cursor)@ == (CursorModel {
                        consumed: height,
                        current: self@.grid[height - 1],
                    })
                } else {
                    r == Ok::<Option<CellValue>, Error>(None) && final(cursor)@ == old(cursor)@
                }
            },
    {
        match self.columns() {
            Some(c) => {
                if col >= c {
                    return Err(Error::IndexOutOfRange(col));
                }
            },
            None => {},
        }
        let height = self.height();
        if row < cursor.consumed {
            if row + 1 < cursor.consumed {
                return Err(Error::IndexOutOfRange(row));
            }
        } else if row < height {
            cursor.current = self.row(row);
            cursor.consumed = row + 1;
        } else {
            if cursor.consumed < height {
                cursor.current = self.row(height - 1);
                cursor.consumed = height;
            }
            return Ok(None);
        }
        if col < cursor.current.len() {
            Ok(Some(cursor.current[col].clone()))
        } else {
            Ok(Some(CellValue::Empty))
        }
    }
}

/// A fault among the first `n` rows is the first fault of all the rows.
proof fn lemma_fault_stays(rows: Seq<RawRow>, columns: Option<usize>, n: int)
    requires
        0 <= n <= rows.len(),
        fault_before(rows, columns, n) is Some,
    ensures
        fault_before(rows, columns, rows.len() as int) == fault_before(rows, columns, n),
    decreases rows.len() - n,
{
    if n < rows.len() {
        lemma_fault_stays(rows, columns, n + 1);
    }
}

/// Read once from its first row until nothing is handed out, a sheet gives its rows, as
/// many and the same as when all of them are taken at once.
pub proof fn lemma_single_pass(sheet: SheetModel)
    ensures
        sheet.rows_after(0) == sheet.grid,
{
    lemma_rows_after(sheet, 0);
    assert(sheet.grid.skip(0) =~= sheet.grid);
}

/// What a cursor is handed after `consumed` rows are the rows from there on.
pub proof fn lemma_rows_after(sheet: SheetModel, consumed: int)
    requires
        0 <= consumed <= sheet.grid.len(),
    ensures
        sheet.rows_after(consumed) == sheet.grid.skip(consumed),
    decreases sheet.grid.len() - consumed,
{
    if consumed < sheet.grid.len() {
        lemma_rows_after(sheet, consumed + 1);
        assert(sheet.rows_after(consumed) =~= sheet.grid.skip(consumed));
    } else {
        assert(sheet.rows_after(consumed) =~= sheet.grid.skip(consumed));
    }
}

/// No row of a sheet is wider than the row was reported, nor than the declared columns,
/// and a column for which a row has no record holds an empty value, within the row and
/// behind its last cell.
pub proof fn lemma_rows_within_columns(data: SheetData, row: int, col: int)
    requires
        0 <= row < data.rows@.len(),
    ensures
        data.grid()[row].len() <= data.rows@[row].width,
        data.columns() matches Some(c) ==> data.grid()[row].len() <= c,
        (forall|i: int|
            0 <= i < data.rows@[row].cells@.len() ==> (#[trigger] data.rows@[row].cells@[i]).col
                != col) ==> SheetModel::value_in(data.grid()[row], col) == CellValue::Empty,
{
}

} // verus!
