use python_calamine::datetime::DateSystem;
use python_calamine::error::{DecodeFailure, Detail, Error};
use python_calamine::load::{finish, load, Decoders};
use python_calamine::row::{CellRecord, RawRow};
use python_calamine::sheet::{Layout, SheetData, Visibility};
use python_calamine::source::{ByteStream, Format, InputSource};
use python_calamine::value::CellValue;
use python_calamine::workbook::Document;
use std::cell::Cell;

fn document(names: &[&str]) -> Document {
    Document {
        date_system: Some(DateSystem::Epoch1904),
        sheets: names
            .iter()
            .map(|name| SheetData {
                name: name.to_string(),
                visibility: Visibility::Visible,
                dimension: None,
                layout: Layout::Materialized,
                rows: vec![RawRow {
                    width: 1,
                    cells: vec![CellRecord { col: 0, value: CellValue::Bool(true) }],
                }],
            })
            .collect(),
    }
}

type Outcome = Result<Document, DecodeFailure>;

fn refuse(_: ByteStream) -> Outcome {
    panic!("a decoder of another format was called")
}

fn zip_source() -> InputSource {
    InputSource::from_stream(ByteStream::new(b"PK\x03\x04 not an archive at all".to_vec()))
}

#[test]
fn corrupt_archive_is_malformed_and_not_unsupported() {
    let decoders = Decoders {
        zip_package: |_| -> Outcome { Err(DecodeFailure::Malformed("bad central directory".to_string())) },
        compound_binary: refuse,
        binary_record: refuse,
        flat_xml: refuse,
    };
    let r = load(zip_source(), decoders);
    assert_eq!(
        r.unwrap_err(),
        Error::MalformedDocument(Format::ZipPackage, Detail::Decoder("bad central directory".to_string()))
    );
}

#[test]
fn unknown_signature_is_unsupported_and_no_decoder_runs() {
    let called = Cell::new(false);
    let source = InputSource::from_stream(ByteStream::new(b"just text".to_vec()));
    let decode = |_: ByteStream| -> Outcome {
        called.set(true);
        Ok(document(&["A"]))
    };
    let decoders = Decoders {
        zip_package: decode,
        compound_binary: decode,
        binary_record: decode,
        flat_xml: decode,
    };
    let r = load(source, decoders);
    assert_eq!(r.unwrap_err(), Error::UnsupportedFormat);
    assert!(!called.get());
}

#[test]
fn decoder_gets_the_format_and_the_stream_at_its_start() {
    let bytes = b"\xd0\xcf\x11\xe0\xa1\xb1\x1a\xe1 and more".to_vec();
    let mut stream = ByteStream::new(bytes.clone());
    stream.seek(5);
    let calls = Cell::new(0);
    let decoders = Decoders {
        zip_package: refuse,
        compound_binary: |mut handed: ByteStream| -> Outcome {
            calls.set(calls.get() + 1);
            assert_eq!(handed.position(), 0);
            assert_eq!(handed.read(usize::MAX), bytes);
            Ok(document(&["Sheet1", "Sheet2"]))
        },
        binary_record: refuse,
        flat_xml: refuse,
    };
    let r = load(InputSource::from_stream(stream), decoders);
    let mut workbook = r.unwrap();
    assert_eq!(calls.get(), 1);
    assert_eq!(workbook.format(), Format::CompoundBinary);
    assert_eq!(workbook.date_system(), Some(DateSystem::Epoch1904));
    assert_eq!(workbook.sheet_names(), vec!["Sheet1".to_string(), "Sheet2".to_string()]);
    assert!(!workbook.is_decoded(0));
    assert_eq!(workbook.sheet_by_index(0).unwrap().to_rows(), vec![vec![CellValue::Bool(true)]]);
}

#[test]
fn decoder_failures_are_wrapped_with_the_format() {
    assert_eq!(
        finish(Format::FlatXml, Err(DecodeFailure::Malformed("unclosed element".to_string()))).unwrap_err(),
        Error::MalformedDocument(Format::FlatXml, Detail::Decoder("unclosed element".to_string()))
    );
    assert_eq!(
        finish(Format::BinaryRecord, Err(DecodeFailure::Unsupported("encryption".to_string()))).unwrap_err(),
        Error::MalformedDocument(Format::BinaryRecord, Detail::Unsupported("encryption".to_string()))
    );
    assert_eq!(
        finish(Format::ZipPackage, Err(DecodeFailure::Io("unexpected end".to_string()))).unwrap_err(),
        Error::IoError("unexpected end".to_string())
    );
    assert_eq!(
        Error::report(Format::ZipPackage, DecodeFailure::Malformed("x".to_string())),
        Error::MalformedDocument(Format::ZipPackage, Detail::Decoder("x".to_string()))
    );
}

#[test]
fn document_of_the_decoder_becomes_the_workbook() {
    let workbook = finish(Format::ZipPackage, Ok(document(&["B", "A", "C"]))).unwrap();
    assert_eq!(workbook.sheet_names(), vec!["B".to_string(), "A".to_string(), "C".to_string()]);
    assert_eq!(workbook.sheet_count(), 3);
    let twice = finish(Format::ZipPackage, Ok(document(&["A", "A"])));
    assert_eq!(
        twice.unwrap_err(),
        Error::MalformedDocument(Format::ZipPackage, Detail::DuplicateSheet("A".to_string()))
    );
}

#[test]
fn file_that_was_read_loads_like_a_stream() {
    let read = Ok(b"<?xml version=\"1.0\"?><office:document/>".to_vec());
    let source = InputSource::from_path("flat.fods".to_string(), read).unwrap();
    let decoders = Decoders {
        zip_package: refuse,
        compound_binary: refuse,
        binary_record: refuse,
        flat_xml: |_| -> Outcome { Ok(document(&["Only"])) },
    };
    let workbook = load(source, decoders).unwrap();
    assert_eq!(workbook.format(), Format::FlatXml);
    assert_eq!(workbook.sheet_names(), vec!["Only".to_string()]);
}

#[test]
fn each_format_has_its_decoder() {
    let cases: [(&[u8], Format, &str); 4] = [
        (b"PK\x03\x04....", Format::ZipPackage, "zip"),
        (b"\xd0\xcf\x11\xe0\xa1\xb1\x1a\xe1....", Format::CompoundBinary, "compound"),
        (b"\x09\x08\x10\x00....", Format::BinaryRecord, "record"),
        (b"<?xml ....", Format::FlatXml, "xml"),
    ];
    for (bytes, format, name) in cases {
        let decoders = Decoders {
            zip_package: |_| -> Outcome { Ok(document(&["zip"])) },
            compound_binary: |_| -> Outcome { Ok(document(&["compound"])) },
            binary_record: |_| -> Outcome { Ok(document(&["record"])) },
            flat_xml: |_| -> Outcome { Ok(document(&["xml"])) },
        };
        let workbook = load(InputSource::from_stream(ByteStream::new(bytes.to_vec())), decoders).unwrap();
        assert_eq!(workbook.format(), format);
        assert_eq!(workbook.sheet_names(), vec![name.to_string()]);
        let alone = Decoders {
            zip_package: |_| -> Outcome { Ok(document(&["zip"])) },
            compound_binary: |_| -> Outcome { Ok(document(&["compound"])) },
            binary_record: |_| -> Outcome { Ok(document(&["record"])) },
            flat_xml: |_| -> Outcome { Ok(document(&["xml"])) },
        };
        let decoded = alone.dispatch(format, ByteStream::new(Vec::new())).unwrap();
        assert_eq!(decoded.sheets[0].name, name);
    }
}
