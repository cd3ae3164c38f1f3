use python_calamine::datetime::DateSystem;
use python_calamine::error::{Detail, Error, RecordFault};
use python_calamine::row::{CellRecord, RawRow};
use python_calamine::sheet::{Dimension, Layout, SheetData, Visibility};
use python_calamine::source::Format;
use python_calamine::value::CellValue;
use python_calamine::workbook::{Document, Workbook};

fn sheet(name: &str, visibility: Visibility, first: i64) -> SheetData {
    SheetData {
        name: name.to_string(),
        visibility,
        dimension: Some(Dimension { rows: 2, columns: 2 }),
        layout: Layout::Streamed,
        rows: vec![
            RawRow {
                width: 2,
                cells: vec![CellRecord { col: 0, value: CellValue::Int(first) }],
            },
            RawRow {
                width: 2,
                cells: vec![CellRecord { col: 1, value: CellValue::String(name.to_string()) }],
            },
        ],
    }
}

fn broken(name: &str) -> SheetData {
    let mut data = sheet(name, Visibility::Visible, 0);
    data.rows[1].cells.push(CellRecord { col: 2, value: CellValue::Bool(true) });
    data
}

fn three() -> Workbook {
    let document = Document {
        date_system: Some(DateSystem::Epoch1900),
        sheets: vec![
            sheet("Sheet1", Visibility::Visible, 1),
            sheet("Sheet2", Visibility::Hidden, 2),
            sheet("Sheet3", Visibility::VeryHidden, 3),
        ],
    };
    Workbook::new(Format::ZipPackage, document).unwrap()
}

#[test]
fn sheet_names_keep_the_declared_order() {
    for format in [Format::ZipPackage, Format::CompoundBinary, Format::BinaryRecord, Format::FlatXml] {
        let document = Document {
            date_system: None,
            sheets: vec![
                sheet("Sheet1", Visibility::Visible, 1),
                sheet("Sheet2", Visibility::Visible, 2),
            ],
        };
        let workbook = Workbook::new(format, document).unwrap();
        assert_eq!(workbook.sheet_names(), vec!["Sheet1".to_string(), "Sheet2".to_string()]);
        assert_eq!(workbook.format(), format);
    }
    let reversed = Document {
        date_system: None,
        sheets: vec![
            sheet("Sheet2", Visibility::Visible, 2),
            sheet("Sheet1", Visibility::Visible, 1),
        ],
    };
    let workbook = Workbook::new(Format::ZipPackage, reversed).unwrap();
    assert_eq!(workbook.sheet_names(), vec!["Sheet2".to_string(), "Sheet1".to_string()]);
}

#[test]
fn hidden_sheets_are_listed_and_handed_out() {
    let mut workbook = three();
    assert_eq!(workbook.sheet_count(), 3);
    assert_eq!(
        workbook.sheets(),
        vec![
            ("Sheet1".to_string(), Visibility::Visible),
            ("Sheet2".to_string(), Visibility::Hidden),
            ("Sheet3".to_string(), Visibility::VeryHidden),
        ]
    );
    let hidden = workbook.sheet_by_name("Sheet3").unwrap();
    assert_eq!(hidden.visibility(), Visibility::VeryHidden);
    assert_eq!(hidden.to_rows()[0][0], CellValue::Int(3));
    let hidden = workbook.sheet_by_index(1).unwrap();
    assert_eq!(hidden.visibility(), Visibility::Hidden);
    assert_eq!(hidden.name(), "Sheet2");
    assert_eq!(hidden.index(), 1);
    assert_eq!(workbook.sheet_by_name("Sheet3").unwrap().index(), 2);
}

#[test]
fn index_behind_the_last_sheet_is_out_of_range() {
    let mut workbook = three();
    assert_eq!(workbook.sheet_by_index(5).unwrap_err(), Error::IndexOutOfRange(5));
    assert_eq!(workbook.sheet_by_index(3).unwrap_err(), Error::IndexOutOfRange(3));
    assert_eq!(workbook.sheet_by_index(usize::MAX).unwrap_err(), Error::IndexOutOfRange(usize::MAX));
    assert!(workbook.sheet_by_index(2).is_ok());
    assert!(!workbook.is_decoded(5));
}

#[test]
fn unknown_name_is_not_found() {
    let mut workbook = three();
    assert_eq!(
        workbook.sheet_by_name("Missing").unwrap_err(),
        Error::SheetNotFound("Missing".to_string())
    );
    assert_eq!(
        workbook.sheet_by_name("sheet1").unwrap_err(),
        Error::SheetNotFound("sheet1".to_string())
    );
    assert_eq!(workbook.sheet_by_name("").unwrap_err(), Error::SheetNotFound(String::new()));
    assert_eq!(workbook.index_of("Missing"), None);
    assert_eq!(workbook.index_of("Sheet2"), Some(1));
    assert!(!workbook.is_decoded(0) && !workbook.is_decoded(1) && !workbook.is_decoded(2));
}

#[test]
fn sheet_is_the_same_by_name_and_by_index() {
    let mut workbook = three();
    let by_name = workbook.sheet_by_name("Sheet2").unwrap().to_rows();
    let by_index = workbook.sheet_by_index(1).unwrap().to_rows();
    assert_eq!(by_name, by_index);
    assert_eq!(
        by_name,
        vec![
            vec![CellValue::Int(2), CellValue::Empty],
            vec![CellValue::Empty, CellValue::String("Sheet2".to_string())],
        ]
    );
    assert_eq!(workbook.sheet_by_name("Sheet2").unwrap().name(), "Sheet2");
}

#[test]
fn sheet_is_decoded_when_first_asked_for() {
    let mut workbook = three();
    assert!(!workbook.is_decoded(0));
    assert!(!workbook.is_decoded(1));
    assert!(workbook.sheet_by_index(1).is_ok());
    assert!(!workbook.is_decoded(0));
    assert!(workbook.is_decoded(1));
    assert!(!workbook.is_decoded(2));
    assert!(workbook.sheet_by_name("Sheet2").is_ok());
    assert!(workbook.is_decoded(1));
    assert!(workbook.sheet_by_name("Sheet1").is_ok());
    assert!(workbook.is_decoded(0));
    assert_eq!(workbook.sheet_names(), vec!["Sheet1".to_string(), "Sheet2".to_string(), "Sheet3".to_string()]);
}

#[test]
fn malformed_sheet_fails_alone_and_every_time() {
    let document = Document {
        date_system: None,
        sheets: vec![sheet("Good", Visibility::Visible, 1), broken("Bad"), sheet("Also", Visibility::Visible, 3)],
    };
    let mut workbook = Workbook::new(Format::CompoundBinary, document).unwrap();
    let expected = Error::MalformedDocument(
        Format::CompoundBinary,
        Detail::Record { sheet: 1, row: 1, index: 1, fault: RecordFault::OutsideRow },
    );
    assert_eq!(workbook.sheet_by_index(1).unwrap_err(), expected);
    assert!(workbook.is_decoded(1));
    assert_eq!(workbook.sheet_by_name("Bad").unwrap_err(), expected);
    assert_eq!(workbook.sheet_by_index(1).unwrap_err(), expected);
    assert_eq!(workbook.sheet_by_index(0).unwrap().to_rows()[0][0], CellValue::Int(1));
    assert_eq!(workbook.sheet_by_name("Also").unwrap().to_rows()[0][0], CellValue::Int(3));
    assert_eq!(workbook.sheet_count(), 3);
}

#[test]
fn two_sheets_of_one_name_are_malformed() {
    let document = Document {
        date_system: None,
        sheets: vec![
            sheet("A", Visibility::Visible, 1),
            sheet("B", Visibility::Visible, 2),
            sheet("C", Visibility::Visible, 3),
            sheet("B", Visibility::Hidden, 4),
            sheet("A", Visibility::Visible, 5),
        ],
    };
    assert_eq!(
        Workbook::new(Format::FlatXml, document).unwrap_err(),
        Error::MalformedDocument(Format::FlatXml, Detail::DuplicateSheet("B".to_string()))
    );
}

#[test]
fn workbook_without_sheets_is_a_workbook() {
    let mut workbook =
        Workbook::new(Format::BinaryRecord, Document { date_system: None, sheets: vec![] }).unwrap();
    assert_eq!(workbook.sheet_count(), 0);
    assert!(workbook.sheet_names().is_empty());
    assert!(workbook.sheets().is_empty());
    assert_eq!(workbook.sheet_by_index(0).unwrap_err(), Error::IndexOutOfRange(0));
    assert_eq!(workbook.date_system(), None);
}

#[test]
fn date_system_is_that_of_the_document() {
    assert_eq!(three().date_system(), Some(DateSystem::Epoch1900));
    let document = Document { date_system: Some(DateSystem::Epoch1904), sheets: vec![] };
    let workbook = Workbook::new(Format::ZipPackage, document).unwrap();
    assert_eq!(workbook.date_system(), Some(DateSystem::Epoch1904));
}
