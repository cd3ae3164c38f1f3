//! A workbook: the sheets of a document, in the order in which the document declares
//! them.
//!
//! A workbook is made once, of what a decoder hands over, and holds no handle to where
//! the document came from. A sheet is decoded when it is first asked for, by name or by
//! index, and kept: asking again gives the kept sheet, or the kept fault.

use crate::datetime::DateSystem;
use crate::error::{Detail, Error, RecordFault};
use crate::sheet::{Sheet, SheetData, SheetFault, SheetModel, Visibility};
use crate::source::Format;
use vstd::pervasive::unreached;
use vstd::prelude::*;

verus! {

/// A document as a decoder hands it over: its date system, where the decoder could
/// resolve one, and its sheets in declared order.
#[derive(Debug, PartialEq, Eq)]
pub struct Document {
    /// The date system that the decoder resolved, if it resolved one.
    pub date_system: Option<DateSystem>,
    /// The sheets, in the order in which the document declares them.
    pub sheets: Vec<SheetData>,
}

/// What a sheet of a workbook is: its name, its visibility, and what decoding it gives.
pub struct EntryModel {
    pub name: Seq<char>,
    pub visibility: Visibility,
    pub content: Result<SheetModel, SheetFault>,
}

/// What a workbook is.
pub struct WorkbookModel {
    pub format: Format,
    pub date_system: Option<DateSystem>,
    pub sheets: Seq<EntryModel>,
}

/// What is kept of a sheet: what the decoder handed over, as long as the sheet has not
/// been asked for, and then the decoded sheet or the fault that decoding found.
#[derive(Debug)]
enum Slot {
    Pending(SheetData),
    Decoded(Sheet),
    Failed(SheetFault),
}

/// A sheet of a workbook.
#[derive(Debug)]
struct Entry {
    name: String,
    visibility: Visibility,
    slot: Slot,
}

/// The sheets of a document.
#[derive(Debug)]
pub struct Workbook {
    format: Format,
    date_system: Option<DateSystem>,
    entries: Vec<Entry>,
}

/// What decoding the sheet at `index` gives.
pub open spec fn content_of(data: SheetData, index: usize) -> Result<SheetModel, SheetFault> {
    match data.fault() {
        Some(fault) => Err(fault),
        None => Ok(data.model(index)),
    }
}

/// What the sheet at `index` is in a workbook.
pub open spec fn entry_of(data: SheetData, index: usize) -> EntryModel {
    EntryModel {
        name: data.name@,
        visibility: data.visibility,
        content: content_of(data, index),
    }
}

/// The name at `j` is the name of a sheet before it.
pub open spec fn repeats(sheets: Seq<SheetData>, j: int) -> bool {
    exists|i: int| 0 <= i < j && (#[trigger] sheets[i]).name@ == sheets[j].name@
}

/// The first of the first `n` sheets whose name is that of a sheet before it.
pub open spec fn first_repeat(sheets: Seq<SheetData>, n: int) -> Option<int>
    decreases n,
{
    if n <= 0 {
        None
    } else {
        match first_repeat(sheets, n - 1) {
            Some(j) => Some(j),
            None => if repeats(sheets, n - 1) {
                Some(n - 1)
            } else {
                None
            },
        }
    }
}

impl Document {
    /// What the workbook of the document is.
    pub open spec fn model(self, format: Format) -> WorkbookModel {
        WorkbookModel {
            format,
            date_system: self.date_system,
            sheets: Seq::new(self.sheets@.len(), |i: int| entry_of(self.sheets@[i], i as usize)),
        }
    }

    /// The first sheet whose name is that of a sheet before it, if any.
    pub open spec fn duplicate(self) -> Option<int> {
        first_repeat(self.sheets@, self.sheets@.len() as int)
    }
}

impl WorkbookModel {
    /// No two sheets have the same name.
    pub open spec fn distinct(self) -> bool {
        forall|i: int, j: int|
            0 <= i < j < self.sheets.len() ==> (#[trigger] self.sheets[i]).name != (
            #[trigger] self.sheets[j]).name
    }

    /// The names of the sheets, in declared order.
    pub open spec fn names(self) -> Seq<Seq<char>> {
        Seq::new(self.sheets.len(), |i: int| self.sheets[i].name)
    }

    /// The index of the sheet with the name, if there is one.
    pub open spec fn index_of(self, name: Seq<char>) -> Option<int> {
        if exists|i: int| 0 <= i < self.sheets.len() && (#[trigger] self.sheets[i]).name == name {
            Some(choose|i: int| 0 <= i < self.sheets.len() && (#[trigger] self.sheets[i]).name == name)
        } else {
            None
        }
    }

    /// The error for the sheet at `index` when decoding it finds `fault`.
    pub open spec fn fault_error(self, index: int, fault: SheetFault) -> Error {
        Error::MalformedDocument(
            self.format,
            Detail::Record {
                sheet: index as usize,
                row: fault.row,
                index: fault.index,
                fault: fault.fault,
            },
        )
    }
}

impl Slot {
    spec fn content(self, index: usize) -> Result<SheetModel, SheetFault> {
        match self {
            Slot::Pending(data) => content_of(data, index),
            Slot::Decoded(sheet) => Ok(sheet@),
            Slot::Failed(fault) => Err(fault),
        }
    }

    /// The sheet at `index` once it has been asked for: decoded if it was not yet, and as
    /// it was otherwise.
    fn asked_for(self, index: usize) -> (r: Slot)
        ensures
            !(r is Pending),
            !(self is Pending) ==> r == self,
            r.content(index) == self.content(index),
    {
        match self {
            Slot::Pending(data) => match Sheet::decode(data, index) {
                Ok(sheet) => Slot::Decoded(sheet),
                Err(fault) => Slot::Failed(fault),
            },
            kept => kept,
        }
    }
}

impl Entry {
    spec fn model(self, index: usize) -> EntryModel {
        EntryModel {
            name: self.name@,
            visibility: self.visibility,
            content: self.slot.content(index),
        }
    }
}

/// No two of the sheets have the same name.
spec fn distinct(entries: Seq<Entry>) -> bool {
    forall|i: int, j: int|
        0 <= i < j < entries.len() ==> (#[trigger] entries[i]).name@ != (#[trigger] entries[j]).name@
}

impl View for Workbook {
    type V = WorkbookModel;

    closed spec fn view(&self) -> WorkbookModel {
        WorkbookModel {
            format: self.format,
            date_system: self.date_system,
            sheets: Seq::new(self.entries@.len(), |i: int| self.entries@[i].model(i as usize)),
        }
    }
}

impl Workbook {
    #[verifier::type_invariant]
    spec fn inv(self) -> bool {
        distinct(self.entries@)
    }

    /// Whether the sheet at `index` has been asked for, so that what decoding it gave is
    /// kept.
    pub closed spec fn decoded(self, index: int) -> bool {
        0 <= index < self.entries@.len() && !(self.entries@[index].slot is Pending)
    }

    /// Makes the workbook of a document of `format`. The sheets keep the order in which
    /// the document declares them, whatever their visibility, and none is decoded yet.
    /// Two sheets of one name make the document malformed.
    pub fn new(format: Format, document: Document) -> (r: Result<Workbook, Error>)
        ensures
            match r {
                Ok(workbook) => {
                    &&& document.duplicate() is None
                    &&& workbook@ == document.model(format)
                    &&& workbook@.distinct()
                    &&& forall|i: int| !workbook.decoded(i)
                },
                Err(e) => document.duplicate() matches Some(j) && e == Error::MalformedDocument(
                    format,
                    Detail::DuplicateSheet(document.sheets@[j].name),
                ),
            },
    {
        let Document { date_system, sheets } = document;
        let mut j: usize = 0;
        while j < sheets.len()
            invariant
                j <= sheets.len(),
                sheets@ == document.sheets@,
                first_repeat(sheets@, j as int) is None,
                forall|a: int, b: int|
                    0 <= a < b < j ==> (#[trigger] sheets@[a]).name@ != (#[trigger] sheets@[b]).name@,
            decreases sheets.len() - j,
        {
            let mut i: usize = 0;
            while i < j
                invariant
                    i <= j < sheets.len(),
                    sheets@ == document.sheets@,
                    first_repeat(sheets@, j as int) is None,
                    forall|a: int| 0 <= a < i ==> (#[trigger] sheets@[a]).name@ != sheets@[j as int].name@,
                decreases j - i,
            {
                if sheets[i].name == sheets[j].name {
                    proof {
                        assert(repeats(sheets@, j as int));
                        assert(first_repeat(sheets@, j as int + 1) == Some(j as int));
                        lemma_repeat_stays(sheets@, j as int + 1);
                    }
                    return Err(
                        Error::MalformedDocument(
                            format,
                            Detail::DuplicateSheet(sheets[j].name.clone()),
                        ),
                    );
                }
                i = i + 1;
            }
            j = j + 1;
        }
        let mut entries: Vec<Entry> = Vec::new();
        let ghost all = sheets@;
        for data in iter: sheets
            invariant
                iter.seq() == all,
                forall|a: int, b: int|
                    0 <= a < b < all.len() ==> (#[trigger] all[a]).name@ != (#[trigger] all[b]).name@,
                entries@.len() == iter.index(),
                forall|a: int|
                    0 <= a < iter.index() ==> (#[trigger] entries@[a]).name@ == all[a].name@
                        && entries@[a].visibility == all[a].visibility && entries@[a].slot
                        == Slot::Pending(all[a]),
        {
            let name = data.name.clone();
            let visibility = data.visibility;
            entries.push(Entry { name, visibility, slot: Slot::Pending(data) });
        }
        let workbook = Workbook { format, date_system, entries };
        proof {
            assert(workbook@.sheets =~= document.model(format).sheets);
        }
        Ok(workbook)
    }

    /// The container format of the document.
    pub fn format(&self) -> (r: Format)
        ensures
            r == self@.format,
    {
        self.format
    }

    /// The date system of the document, where the decoder resolved one.
    pub fn date_system(&self) -> (r: Option<DateSystem>)
        ensures
            r == self@.date_system,
    {
        self.date_system
    }

    /// The number of sheets, hidden ones included.
    pub fn sheet_count(&self) -> (r: usize)
        ensures
            r == self@.sheets.len(),
    {
        self.entries.len()
    }

    /// The names of the sheets, in the order in which the document declares them. Hidden
    /// sheets are listed like the others.
    pub fn sheet_names(&self) -> (r: Vec<String>)
        ensures
            r@.len() == self@.sheets.len(),
            forall|i: int| 0 <= i < r@.len() ==> (#[trigger] r@[i])@ == self@.sheets[i].name,
    {
        let mut out: Vec<String> = Vec::new();
        let mut i: usize = 0;
        while i < self.entries.len()
            invariant
                i <= self.entries@.len(),
                self.entries@.len() == self@.sheets.len(),
                out@.len() == i,
                forall|k: int| 0 <= k < i ==> (#[trigger] out@[k])@ == self@.sheets[k].name,
            decreases self.entries.len() - i,
        {
            out.push(self.entries[i].name.clone());
            i = i + 1;
        }
        out
    }

    /// The name and the visibility of each sheet, in the order in which the document
    /// declares them.
    pub fn sheets(&self) -> (r: Vec<(String, Visibility)>)
        ensures
            r@.len() == self@.sheets.len(),
            forall|i: int|
                0 <= i < r@.len() ==> (#[trigger] r@[i]).0@ == self@.sheets[i].name && r@[i].1
                    == self@.sheets[i].visibility,
    {
        let mut out: Vec<(String, Visibility)> = Vec::new();
        let mut i: usize = 0;
        while i < self.entries.len()
            invariant
                i <= self.entries@.len(),
                self.entries@.len() == self@.sheets.len(),
                out@.len() == i,
                forall|k: int|
                    0 <= k < i ==> (#[trigger] out@[k]).0@ == self@.sheets[k].name && out@[k].1
                        == self@.sheets[k].visibility,
            decreases self.entries.len() - i,
        {
            out.push((self.entries[i].name.clone(), self.entries[i].visibility));
            i = i + 1;
        }
        out
    }

    /// Whether the sheet at `index` has been asked for.
    pub fn is_decoded(&self, index: usize) -> (r: bool)
        ensures
            r == self.decoded(index as int),
    {
        if index >= self.entries.len() {
            return false;
        }
        match &self.entries[index].slot {
            Slot::Pending(_) => false,
            _ => true,
        }
    }

    /// The index of the sheet with the name, if there is one.
    pub fn index_of(&self, name: &str) -> (r: Option<usize>)
        ensures
            match r {
                Some(i) => self@.index_of(name@) == Some(i as int) && i < self@.sheets.len()
                    && self@.sheets[i as int].name == name@,
                None => self@.index_of(name@) is None,
            },
    {
        proof {
            use_type_invariant(self);
        }
        let wanted: String = name.to_owned();
        let mut i: usize = 0;
        while i < self.entries.len()
            invariant
                i <= self.entries@.len(),
                self.entries@.len() == self@.sheets.len(),
                wanted@ == name@,
                forall|k: int| 0 <= k < i ==> (#[trigger] self@.sheets[k]).name != name@,
                distinct(self.entries@),
            decreases self.entries.len() - i,
        {
            if self.entries[i].name == wanted {
                proof {
                    let found = choose|k: int|
                        0 <= k < self@.sheets.len() && (#[trigger] self@.sheets[k]).name == name@;
                    assert(self@.sheets[i as int].name == name@);
                    if found < i {
                        assert(self.entries@[found].name@ != self.entries@[i as int].name@);
                    }
                    if found > i {
                        assert(self.entries@[i as int].name@ != self.entries@[found].name@);
                    }
                }
                return Some(i);
            }
            i = i + 1;
        }
        None
    }

    /// The sheet at `index`, counted from 0 in declared order. A hidden sheet is handed
    /// out like any other.
    ///
    /// An index from the number of sheets on is [`Error::IndexOutOfRange`]. Otherwise the
    /// sheet is decoded if it has not been asked for before, and what decoding gave is
    /// kept: the sheet, or the first record at fault, which every call reports as
    /// [`Error::MalformedDocument`]. A sheet that has been asked for before is not decoded
    /// again, and the workbook is left as it was. What the workbook is never changes.
    pub fn sheet_by_index(&mut self, index: usize) -> (r: Result<&Sheet, Error>)
        ensures
            final(self)@ == old(self)@,
            forall|j: int| j != index ==> final(self).decoded(j) == old(self).decoded(j),
            index >= old(self)@.sheets.len() ==> r == Err::<&Sheet, Error>(
                Error::IndexOutOfRange(index),
            ) && *final(self) == *old(self),
            index < old(self)@.sheets.len() ==> {
                &&& final(self).decoded(index as int)
                &&& old(self).decoded(index as int) ==> *final(self) == *old(self)
                &&& match old(self)@.sheets[index as int].content {
                    Ok(model) => r matches Ok(sheet) && sheet@ == model,
                    Err(fault) => r == Err::<&Sheet, Error>(
                        old(self)@.fault_error(index as int, fault),
                    ),
                }
            },
    {
        if index >= self.entries.len() {
            return Err(Error::IndexOutOfRange(index));
        }
        let pending: bool = match &self.entries[index].slot {
            Slot::Pending(_) => true,
            _ => false,
        };
        if pending {
            proof {
                use_type_invariant(&*self);
            }
            let mut entries: Vec<Entry> = Vec::new();
            core::mem::swap(&mut self.entries, &mut entries);
            let mut taken = Slot::Failed(
                SheetFault { row: 0, index: 0, fault: RecordFault::OutOfOrder },
            );
            core::mem::swap(&mut entries[index].slot, &mut taken);
            entries[index].slot = taken.asked_for(index);
            proof {
                assert forall|i: int| 0 <= i < entries@.len() implies (#[trigger] entries@[i]).name
                    == old(self).entries@[i].name by {}
            }
            self.entries = entries;
            proof {
                assert(self@.sheets =~= old(self)@.sheets);
            }
        }
        match &self.entries[index].slot {
            Slot::Decoded(sheet) => Ok(sheet),
            Slot::Failed(fault) => Err(
                Error::MalformedDocument(
                    self.format,
                    Detail::Record {
                        sheet: index,
                        row: fault.row,
                        index: fault.index,
                        fault: fault.fault,
                    },
                ),
            ),
            Slot::Pending(_) => unreached(),
        }
    }

    /// The sheet with the name. A workbook without such a sheet gives
    /// [`Error::SheetNotFound`] with the name and is left as it was; otherwise the result
    /// is that of [`Workbook::sheet_by_index`] at the sheet's index, so that a sheet is
    /// the same sheet by its name and by its index, and is decoded once.
    pub fn sheet_by_name(&mut self, name: &str) -> (r: Result<&Sheet, Error>)
        ensures
            final(self)@ == old(self)@,
            match old(self)@.index_of(name@) {
                None => (r matches Err(Error::SheetNotFound(missing)) && missing@ == name@)
                    && *final(self) == *old(self),
                Some(index) => {
                    &&& 0 <= index < old(self)@.sheets.len()
                    &&& old(self)@.sheets[index].name == name@
                    &&& forall|j: int| j != index ==> final(self).decoded(j) == old(self).decoded(j)
                    &&& final(self).decoded(index)
                    &&& old(self).decoded(index) ==> *final(self) == *old(self)
                    &&& match old(self)@.sheets[index].content {
                        Ok(model) => r matches Ok(sheet) && sheet@ == model,
                        Err(fault) => r == Err::<&Sheet, Error>(
                            old(self)@.fault_error(index, fault),
                        ),
                    }
                },
            },
    {
        match self.index_of(name) {
            Some(index) => self.sheet_by_index(index),
            None => Err(Error::SheetNotFound(name.to_owned())),
        }
    }
}

/// Whatever the container format, the names of a workbook's sheets are those of the
/// document's sheets in the order in which the document declares them, and each sheet has
/// the visibility that the document declares for it.
pub proof fn lemma_declared_order(document: Document, format: Format)
    ensures
        document.model(format).names() == Seq::new(
            document.sheets@.len(),
            |i: int| document.sheets@[i].name@,
        ),
        forall|i: int|
            0 <= i < document.sheets@.len() ==> (#[trigger] document.model(format).sheets[i]).visibility
                == document.sheets@[i].visibility,
{
    assert(document.model(format).names() =~= Seq::new(
        document.sheets@.len(),
        |i: int| document.sheets@[i].name@,
    ));
}

/// A repeated name among the first `n` sheets is the first repeated name of all.
proof fn lemma_repeat_stays(sheets: Seq<SheetData>, n: int)
    requires
        0 <= n <= sheets.len(),
        first_repeat(sheets, n) is Some,
    ensures
        first_repeat(sheets, sheets.len() as int) == first_repeat(sheets, n),
    decreases sheets.len() - n,
{
    if n < sheets.len() {
        lemma_repeat_stays(sheets, n + 1);
    }
}

} // verus!
