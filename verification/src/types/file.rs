//! File blob types: an owned file whose payload is either in-memory bytes or
//! a single-pass streaming source, and the borrowed view a decode returns.
use vstd::prelude::*;
use vstd::slice::slice_to_vec;
use vstd::string::StringSliceAdditionalSpecFns;
use vstd::utf8::encode_utf8;

verus! {

/// A streaming payload source for file values.
///
/// A source exposes its total size without being read, and hands its bytes
/// out front to back, each read consuming what it returns. A source is
/// single-pass: once read, bytes cannot be produced again. Callers outside
/// the library implement this for their own readers; [`NoHandle`] is the
/// trivial, empty source used when a tree holds only in-memory payloads.
pub trait FileHandle: Sized {
    /// The bytes the source has not yet handed out.
    spec fn contents(&self) -> Seq<u8>;

    /// Total size in bytes still to be read, knowable without reading.
    fn size(&self) -> (n: u64)
        ensures
            n as nat == self.contents().len(),
    ;

    /// Hand out the next chunk of at most `max` bytes. A successful read of
    /// an empty chunk means the source is exhausted; a failed read leaves
    /// the source as it was.
    fn read_chunk(&mut self, max: usize) -> (r: Result<Vec<u8>, ()>)
        ensures
            match r {
                Ok(chunk) => {
                    &&& chunk@.len() <= max
                    &&& chunk@ == old(self).contents().take(chunk@.len() as int)
                    &&& final(self).contents() == old(self).contents().skip(chunk@.len() as int)
                    &&& ((max > 0 && old(self).contents().len() > 0) ==> chunk@.len() > 0)
                },
                Err(e) => final(self).contents() == old(self).contents(),
            },
    ;
}

/// The empty streaming source: the placeholder handle type of trees whose
/// file payloads are all in-memory bytes.
pub struct NoHandle;

impl FileHandle for NoHandle {
    open spec fn contents(&self) -> Seq<u8> {
        Seq::empty()
    }

    fn size(&self) -> (n: u64) {
        0
    }

    fn read_chunk(&mut self, max: usize) -> (r: Result<Vec<u8>, ()>) {
        Ok(Vec::new())
    }
}

/// Source of a file value's payload: either in-memory bytes or a streaming
/// source. A closed sum with two states; no third payload source exists.
pub enum FileData<H: FileHandle = NoHandle> {
    /// In-memory bytes.
    Bytes(Vec<u8>),
    /// A single-pass streaming source.
    Handle(H),
}

impl<H: FileHandle> FileData<H> {
    /// The payload bytes this source stands for.
    pub open spec fn spec_data(&self) -> Seq<u8> {
        match self {
            FileData::Bytes(b) => b@,
            FileData::Handle(h) => h.contents(),
        }
    }

    /// Get the size of the data.
    pub fn size(&self) -> (n: u64)
        ensures
            n as nat == self.spec_data().len(),
    {
        match self {
            FileData::Bytes(b) => b.len() as u64,
            FileData::Handle(h) => h.size(),
        }
    }
}

/// Owned file blob (for building and encoding).
pub struct File<H: FileHandle = NoHandle> {
    pub mimetype: String,
    pub data: FileData<H>,
}

impl<H: FileHandle> File<H> {
    /// The UTF-8 bytes of the mimetype.
    pub open spec fn spec_mime_bytes(&self) -> Seq<u8> {
        encode_utf8(self.mimetype@)
    }

    /// Create from in-memory bytes.
    pub fn from_bytes(mimetype: &str, data: Vec<u8>) -> (f: File<H>)
        ensures
            f.mimetype@ == mimetype@,
            f.data == FileData::<H>::Bytes(data),
    {
        File { mimetype: mimetype.to_owned(), data: FileData::Bytes(data) }
    }

    /// Create from a streaming source paired with its declared size.
    pub fn from_handle(mimetype: &str, handle: H) -> (f: File<H>)
        ensures
            f.mimetype@ == mimetype@,
            f.data == FileData::<H>::Handle(handle),
    {
        File { mimetype: mimetype.to_owned(), data: FileData::Handle(handle) }
    }

    /// Get the size of the file data.
    pub fn size(&self) -> (n: u64)
        ensures
            n as nat == self.data.spec_data().len(),
    {
        self.data.size()
    }
}

/// View into a file blob inside a decoded artifact: both fields borrow from
/// the input buffer.
#[derive(Debug, Clone, Copy)]
pub struct FileView<'a> {
    pub mimetype: &'a str,
    pub data: &'a [u8],
}

impl<'a> FileView<'a> {
    /// Convert to an owned, in-memory file, detached from the buffer.
    pub fn to_owned(&self) -> (f: File)
        ensures
            f.spec_mime_bytes() == self.mimetype.spec_bytes(),
            f.data.spec_data() == self.data@,
    {
        File { mimetype: self.mimetype.to_owned(), data: FileData::Bytes(slice_to_vec(self.data)) }
    }
}

} // verus!
