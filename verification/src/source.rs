//! Where a document comes from, and which container format it is in.
//!
//! A document is read from a path or from a stream of bytes; either way it is held here as
//! the bytes and a read position. The container format is told from the leading bytes,
//! never from a file name.

use crate::error::Error;
use vstd::prelude::*;

verus! {

/// The number of leading bytes that are read to tell the container format.
pub const SIGNATURE_WINDOW: usize = 8;

/// The container formats that are recognised.
#[derive(Clone, Copy, Debug, PartialEq, Eq, Structural)]
pub enum Format {
    /// A ZIP package of XML parts: the bytes start with the signature of a local file
    /// header.
    ZipPackage,
    /// A compound binary file, the container of legacy binary workbooks.
    CompoundBinary,
    /// A bare stream of binary records: the bytes start with a beginning-of-file record.
    BinaryRecord,
    /// A flat XML document: the bytes start with an XML declaration.
    FlatXml,
}

/// The bytes with which a document of the format starts.
pub open spec fn signature(format: Format) -> Seq<u8> {
    match format {
        Format::ZipPackage => seq![0x50u8, 0x4b, 0x03, 0x04],
        Format::CompoundBinary => seq![0xd0u8, 0xcf, 0x11, 0xe0, 0xa1, 0xb1, 0x1a, 0xe1],
        Format::BinaryRecord => seq![0x09u8, 0x08, 0x10, 0x00],
        Format::FlatXml => seq![0x3cu8, 0x3f, 0x78, 0x6d, 0x6c],
    }
}

/// The bytes start with the signature of the format.
pub open spec fn has_signature(bytes: Seq<u8>, format: Format) -> bool {
    signature(format).is_prefix_of(bytes)
}

/// The format whose signature the bytes start with, if there is one.
pub open spec fn sniffed(bytes: Seq<u8>) -> Option<Format> {
    if has_signature(bytes, Format::ZipPackage) {
        Some(Format::ZipPackage)
    } else if has_signature(bytes, Format::CompoundBinary) {
        Some(Format::CompoundBinary)
    } else if has_signature(bytes, Format::BinaryRecord) {
        Some(Format::BinaryRecord)
    } else if has_signature(bytes, Format::FlatXml) {
        Some(Format::FlatXml)
    } else {
        None
    }
}

/// The leading window of the bytes: the first [`SIGNATURE_WINDOW`] of them, or all where
/// there are fewer.
pub open spec fn window(bytes: Seq<u8>) -> Seq<u8> {
    if bytes.len() <= SIGNATURE_WINDOW {
        bytes
    } else {
        bytes.take(SIGNATURE_WINDOW as int)
    }
}

/// No bytes start with the signatures of two formats, and the format that is sniffed is
/// the one whose signature they start with.
pub proof fn lemma_signatures_exclusive(bytes: Seq<u8>, a: Format, b: Format)
    requires
        has_signature(bytes, a),
        has_signature(bytes, b),
    ensures
        a == b,
        sniffed(bytes) == Some(a),
{
    assert(signature(a)[0] == bytes[0]);
    assert(signature(b)[0] == bytes[0]);
}

/// The leading window decides: bytes start with a signature exactly when their window does.
pub proof fn lemma_window_decides(bytes: Seq<u8>)
    ensures
        forall|format: Format| has_signature(bytes, format) == has_signature(window(bytes), format),
        sniffed(bytes) == sniffed(window(bytes)),
{
    assert forall|format: Format|
        has_signature(bytes, format) == has_signature(window(bytes), format) by {
        let s = signature(format);
        let w = window(bytes);
        if has_signature(bytes, format) {
            assert(s =~= w.subrange(0, s.len() as int));
        }
        if has_signature(w, format) {
            assert(s =~= bytes.subrange(0, s.len() as int));
        }
    }
}

/// Whether `bytes` starts with `prefix`.
fn starts_with(bytes: &[u8], prefix: &[u8]) -> (r: bool)
    ensures
        r == prefix@.is_prefix_of(bytes@),
{
    if bytes.len() < prefix.len() {
        return false;
    }
    let mut i: usize = 0;
    while i < prefix.len()
        invariant
            i <= prefix.len() <= bytes.len(),
            forall|j: int| 0 <= j < i ==> bytes@[j] == prefix@[j],
        decreases prefix.len() - i,
    {
        if bytes[i] != prefix[i] {
            proof {
                if prefix@.is_prefix_of(bytes@) {
                    assert(prefix@ == bytes@.subrange(0, prefix@.len() as int));
                    assert(bytes@.subrange(0, prefix@.len() as int)[i as int] == bytes@[i as int]);
                }
            }
            return false;
        }
        i = i + 1;
    }
    proof {
        assert(prefix@ =~= bytes@.subrange(0, prefix@.len() as int));
    }
    true
}

/// Tells the container format from the leading bytes of a document: the format whose
/// signature they start with, and [`Error::UnsupportedFormat`] where they start with
/// none. No bytes start with two signatures.
pub fn sniff(bytes: &[u8]) -> (r: Result<Format, Error>)
    ensures
        r == match sniffed(bytes@) {
            Some(format) => Ok::<Format, Error>(format),
            None => Err(Error::UnsupportedFormat),
        },
        r matches Ok(format) ==> has_signature(bytes@, format),
        r is Err ==> forall|format: Format| !has_signature(bytes@, format),
{
    let zip: [u8; 4] = [0x50, 0x4b, 0x03, 0x04];
    let compound: [u8; 8] = [0xd0, 0xcf, 0x11, 0xe0, 0xa1, 0xb1, 0x1a, 0xe1];
    let record: [u8; 4] = [0x09, 0x08, 0x10, 0x00];
    let xml: [u8; 5] = [0x3c, 0x3f, 0x78, 0x6d, 0x6c];
    proof {
        assert(zip@ =~= signature(Format::ZipPackage));
        assert(compound@ =~= signature(Format::CompoundBinary));
        assert(record@ =~= signature(Format::BinaryRecord));
        assert(xml@ =~= signature(Format::FlatXml));
    }
    if starts_with(bytes, zip.as_slice()) {
        Ok(Format::ZipPackage)
    } else if starts_with(bytes, compound.as_slice()) {
        Ok(Format::CompoundBinary)
    } else if starts_with(bytes, record.as_slice()) {
        Ok(Format::BinaryRecord)
    } else if starts_with(bytes, xml.as_slice()) {
        Ok(Format::FlatXml)
    } else {
        Err(Error::UnsupportedFormat)
    }
}

/// What a stream of bytes is: its bytes and its read position.
pub struct StreamModel {
    pub bytes: Seq<u8>,
    pub position: nat,
}

/// A readable and seekable stream of bytes, held in memory.
#[derive(Debug)]
pub struct ByteStream {
    data: Vec<u8>,
    position: usize,
}

/// What a source is: the path of the file, if it is one, and the stream of its bytes.
pub struct SourceModel {
    pub path: Option<Seq<char>>,
    pub stream: StreamModel,
}

/// The source of a document: a file that was read, or a stream that the caller supplied.
/// Either way it is read as a stream of bytes.
#[derive(Debug)]
pub struct InputSource {
    path: Option<String>,
    stream: ByteStream,
}

impl View for ByteStream {
    type V = StreamModel;

    closed spec fn view(&self) -> StreamModel {
        StreamModel { bytes: self.data@, position: self.position as nat }
    }
}

impl StreamModel {
    /// What a read of up to `count` bytes returns: the bytes from the position on, as far
    /// as there are any.
    pub open spec fn next(self, count: nat) -> Seq<u8> {
        if self.position + count <= self.bytes.len() {
            self.bytes.subrange(self.position as int, (self.position + count) as int)
        } else {
            self.bytes.subrange(self.position as int, self.bytes.len() as int)
        }
    }
}

impl ByteStream {
    #[verifier::type_invariant]
    spec fn inv(self) -> bool {
        self.position <= self.data@.len()
    }

    /// A stream of the bytes, at its start.
    pub fn new(data: Vec<u8>) -> (r: ByteStream)
        ensures
            r@ == (StreamModel { bytes: data@, position: 0 }),
    {
        ByteStream { data, position: 0 }
    }

    /// The stream of what reading a file or a caller's stream gave: the bytes, at their
    /// start, or [`Error::IoError`] with the cause where reading failed.
    pub fn from_read(read: Result<Vec<u8>, String>) -> (r: Result<ByteStream, Error>)
        ensures
            match read {
                Ok(data) => r matches Ok(stream) && stream@ == (StreamModel {
                    bytes: data@,
                    position: 0,
                }),
                Err(cause) => r == Err::<ByteStream, Error>(Error::IoError(cause)),
            },
    {
        match read {
            Ok(data) => Ok(ByteStream::new(data)),
            Err(cause) => Err(Error::IoError(cause)),
        }
    }

    /// The number of bytes of the stream.
    pub fn len(&self) -> (r: usize)
        ensures
            r == self@.bytes.len(),
    {
        self.data.len()
    }

    /// The read position, counted in bytes from the start.
    pub fn position(&self) -> (r: usize)
        ensures
            r == self@.position,
            r <= self@.bytes.len(),
    {
        proof {
            use_type_invariant(self);
        }
        self.position
    }

    /// Reads up to `count` bytes from the position on and moves the position behind them.
    /// At the end of the stream nothing is read.
    pub fn read(&mut self, count: usize) -> (r: Vec<u8>)
        ensures
            r@ == old(self)@.next(count as nat),
            final(self)@.bytes == old(self)@.bytes,
            final(self)@.position == old(self)@.position + r@.len(),
    {
        proof {
            use_type_invariant(&*self);
        }
        let left: usize = self.data.len() - self.position;
        let take: usize = if count < left {
            count
        } else {
            left
        };
        let mut out: Vec<u8> = Vec::new();
        let start: usize = self.position;
        let mut i: usize = 0;
        while i < take
            invariant
                i <= take,
                start + take <= self.data@.len() <= usize::MAX,
                out@ == self.data@.subrange(start as int, start + i),
            decreases take - i,
        {
            out.push(self.data[start + i]);
            proof {
                assert(out@ =~= self.data@.subrange(start as int, start + i + 1));
            }
            i = i + 1;
        }
        self.position = start + take;
        out
    }

    /// Moves the position to `position` bytes from the start, or to the end of the
    /// stream where that lies before it. Returns the new position.
    pub fn seek(&mut self, position: usize) -> (r: usize)
        ensures
            final(self)@.bytes == old(self)@.bytes,
            final(self)@.position == r,
            r == if position <= old(self)@.bytes.len() {
                position as int
            } else {
                old(self)@.bytes.len() as int
            },
    {
        let target: usize = if position <= self.data.len() {
            position
        } else {
            self.data.len()
        };
        self.position = target;
        target
    }

    /// Moves the position to the start.
    pub fn rewind(&mut self)
        ensures
            final(self)@ == (StreamModel { bytes: old(self)@.bytes, position: 0 }),
    {
        self.position = 0;
    }

    /// Tells the container format from the leading window of the stream, wherever the
    /// position is, and leaves the position at the start, so that a decoder reads the
    /// document from its first byte.
    pub fn detect(&mut self) -> (r: Result<Format, Error>)
        ensures
            final(self)@ == (StreamModel { bytes: old(self)@.bytes, position: 0 }),
            r == match sniffed(old(self)@.bytes) {
                Some(format) => Ok::<Format, Error>(format),
                None => Err(Error::UnsupportedFormat),
            },
    {
        self.rewind();
        let leading = self.read(SIGNATURE_WINDOW);
        self.rewind();
        proof {
            lemma_window_decides(self@.bytes);
            assert(leading@ =~= window(self@.bytes));
        }
        sniff(leading.as_slice())
    }

    /// The bytes of the stream.
    pub fn into_bytes(self) -> (r: Vec<u8>)
        ensures
            r@ == self@.bytes,
    {
        self.data
    }
}

impl View for InputSource {
    type V = SourceModel;

    closed spec fn view(&self) -> SourceModel {
        SourceModel {
            path: match self.path {
                Some(path) => Some(path@),
                None => None,
            },
            stream: self.stream@,
        }
    }
}

impl InputSource {
    /// The source that is the file at `path`, with what reading the file gave: its bytes,
    /// or the cause of the failure, which becomes [`Error::IoError`].
    pub fn from_path(path: String, read: Result<Vec<u8>, String>) -> (r: Result<
        InputSource,
        Error,
    >)
        ensures
            match read {
                Ok(data) => r matches Ok(source) && source@ == (SourceModel {
                    path: Some(path@),
                    stream: StreamModel { bytes: data@, position: 0 },
                }),
                Err(cause) => r == Err::<InputSource, Error>(Error::IoError(cause)),
            },
    {
        match ByteStream::from_read(read) {
            Ok(stream) => Ok(InputSource { path: Some(path), stream }),
            Err(e) => Err(e),
        }
    }

    /// The source that is a stream which the caller supplies, at whatever position.
    pub fn from_stream(stream: ByteStream) -> (r: InputSource)
        ensures
            r@ == (SourceModel { path: None, stream: stream@ }),
    {
        InputSource { path: None, stream }
    }

    /// The path of the file, if the source is one.
    pub fn path(&self) -> (r: Option<&String>)
        ensures
            match r {
                Some(path) => self@.path == Some(path@),
                None => self@.path is None,
            },
    {
        self.path.as_ref()
    }

    /// Tells the container format of the source from its leading bytes and leaves the
    /// stream at its start.
    pub fn detect(&mut self) -> (r: Result<Format, Error>)
        ensures
            final(self)@ == (SourceModel {
                path: old(self)@.path,
                stream: StreamModel { bytes: old(self)@.stream.bytes, position: 0 },
            }),
            r == match sniffed(old(self)@.stream.bytes) {
                Some(format) => Ok::<Format, Error>(format),
                None => Err(Error::UnsupportedFormat),
            },
    {
        self.stream.detect()
    }

    /// The stream of the source's bytes. The source is used up.
    pub fn into_stream(self) -> (r: ByteStream)
        ensures
            r@ == self@.stream,
    {
        self.stream
    }
}

} // verus!
