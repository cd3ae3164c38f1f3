//! Loading a workbook: from the source, through detection and the decoder, to the
//! workbook or the error.
//!
//! The decoders are not part of this crate. There is one for each container format; the
//! decoder of the format that was detected is handed the stream at its start and hands
//! back the document or its failure. Whatever it hands back, what becomes of it is
//! decided here.

use crate::error::{DecodeFailure, Error};
use crate::source::{sniffed, ByteStream, Format, InputSource, StreamModel};
use crate::workbook::{Document, Workbook};
use vstd::prelude::*;

verus! {

/// `result` is what loading gives when the decoder of `format` hands back `outcome`: the
/// decoder's failure, wrapped with the format, or the workbook of its document, or the
/// error for a document with two sheets of one name.
pub open spec fn loaded(
    format: Format,
    outcome: Result<Document, DecodeFailure>,
    result: Result<Workbook, Error>,
) -> bool {
    match outcome {
        Err(failure) => result == Err::<Workbook, Error>(Error::of_failure(format, failure)),
        Ok(document) => match document.duplicate() {
            Some(j) => result == Err::<Workbook, Error>(
                Error::MalformedDocument(
                    format,
                    crate::error::Detail::DuplicateSheet(document.sheets@[j].name),
                ),
            ),
            None => {
                &&& result matches Ok(workbook)
                &&& workbook@ == document.model(format)
                &&& forall|i: int| !workbook.decoded(i)
            },
        },
    }
}

/// Makes the workbook of what the decoder of `format` handed back. A failure of the
/// decoder is never dropped and never becomes [`Error::UnsupportedFormat`]: it is
/// reported with the format.
pub fn finish(format: Format, outcome: Result<Document, DecodeFailure>) -> (r: Result<
    Workbook,
    Error,
>)
    ensures
        loaded(format, outcome, r),
{
    match outcome {
        Ok(document) => Workbook::new(format, document),
        Err(failure) => Err(Error::report(format, failure)),
    }
}

/// The decoders, one for each container format. A decoder is handed the stream of the
/// document at its start and hands back the document or its failure.
pub struct Decoders<Z, C, B, X> {
    /// The decoder of [`Format::ZipPackage`].
    pub zip_package: Z,
    /// The decoder of [`Format::CompoundBinary`].
    pub compound_binary: C,
    /// The decoder of [`Format::BinaryRecord`].
    pub binary_record: B,
    /// The decoder of [`Format::FlatXml`].
    pub flat_xml: X,
}

impl<Z, C, B, X> Decoders<Z, C, B, X> where
    Z: FnOnce(ByteStream) -> Result<Document, DecodeFailure>,
    C: FnOnce(ByteStream) -> Result<Document, DecodeFailure>,
    B: FnOnce(ByteStream) -> Result<Document, DecodeFailure>,
    X: FnOnce(ByteStream) -> Result<Document, DecodeFailure>,
 {
    /// Every decoder can be called on every stream.
    pub open spec fn ready(self) -> bool {
        forall|stream: ByteStream|
            {
                &&& call_requires(self.zip_package, (stream,))
                &&& call_requires(self.compound_binary, (stream,))
                &&& call_requires(self.binary_record, (stream,))
                &&& call_requires(self.flat_xml, (stream,))
            }
    }

    /// The decoder of `format` can hand back `outcome` when it is called on `stream`.
    pub open spec fn hands_back(
        self,
        format: Format,
        stream: ByteStream,
        outcome: Result<Document, DecodeFailure>,
    ) -> bool {
        match format {
            Format::ZipPackage => call_ensures(self.zip_package, (stream,), outcome),
            Format::CompoundBinary => call_ensures(self.compound_binary, (stream,), outcome),
            Format::BinaryRecord => call_ensures(self.binary_record, (stream,), outcome),
            Format::FlatXml => call_ensures(self.flat_xml, (stream,), outcome),
        }
    }

    /// Calls the decoder of `format` on the stream, and no other.
    pub fn dispatch(self, format: Format, stream: ByteStream) -> (r: Result<
        Document,
        DecodeFailure,
    >)
        requires
            self.ready(),
        ensures
            self.hands_back(format, stream, r),
    {
        let Decoders { zip_package, compound_binary, binary_record, flat_xml } = self;
        match format {
            Format::ZipPackage => zip_package(stream),
            Format::CompoundBinary => compound_binary(stream),
            Format::BinaryRecord => binary_record(stream),
            Format::FlatXml => flat_xml(stream),
        }
    }
}

/// Loads a workbook from a source. The container format is told from the leading bytes;
/// a source that starts with no known signature gives [`Error::UnsupportedFormat`], and
/// no decoder is called. Otherwise the decoder of the format is called once, with the
/// stream at its start, and the result is what [`finish`] makes of what it hands back.
/// The source is used up.
pub fn load<Z, C, B, X>(source: InputSource, decoders: Decoders<Z, C, B, X>) -> (r: Result<
    Workbook,
    Error,
>) where
    Z: FnOnce(ByteStream) -> Result<Document, DecodeFailure>,
    C: FnOnce(ByteStream) -> Result<Document, DecodeFailure>,
    B: FnOnce(ByteStream) -> Result<Document, DecodeFailure>,
    X: FnOnce(ByteStream) -> Result<Document, DecodeFailure>,

    requires
        decoders.ready(),
    ensures
        match sniffed(source@.stream.bytes) {
            None => r == Err::<Workbook, Error>(Error::UnsupportedFormat),
            Some(format) => exists|stream: ByteStream, outcome: Result<Document, DecodeFailure>|
                {
                    &&& stream@ == (StreamModel { bytes: source@.stream.bytes, position: 0 })
                    &&& decoders.hands_back(format, stream, outcome)
                    &&& loaded(format, outcome, r)
                },
        },
{
    let mut source = source;
    let format = match source.detect() {
        Ok(format) => format,
        Err(e) => {
            return Err(e);
        },
    };
    let stream = source.into_stream();
    let ghost handed = stream;
    let outcome = decoders.dispatch(format, stream);
    let r = finish(format, outcome);
    proof {
        assert(decoders.hands_back(format, handed, outcome) && loaded(format, outcome, r));
    }
    r
}

} // verus!
