use vstd::prelude::*;

verus! {

pub type ByteCount = usize;

pub const IFF_ID_FIELD_SIZE: ByteCount = 4;
pub const IFF_SIZE_FIELD_SIZE: ByteCount = 4;
pub const LXOB_HEADER_SIZE: ByteCount = 52;
pub const CHUNK_HEADER_SIZE: ByteCount = 8;

pub const BYTES_PER_LXOB_FLOAT: ByteCount = 4;
pub const BYTES_PER_3D_POINT: ByteCount = 12;

pub const TAG_CHAR_LEN: usize = 4;

/// File type tag of the container, "LXOB", as bytes.
pub open spec fn lxob_tag_bytes() -> Seq<u8> {
    seq![0x4Cu8, 0x58u8, 0x4Fu8, 0x42u8]
}

/// Tag of the points chunk, "PNTS", as bytes.
pub open spec fn pnts_tag_bytes() -> Seq<u8> {
    seq![0x50u8, 0x4Eu8, 0x54u8, 0x53u8]
}

/// Supported file extensions of LXOB files.
pub const LXO_FILE_EXTENSION: [&'static str; 1] = ["lxo"];

/// Errors that decoding a buffer can report.
#[derive(Clone, Copy, Debug, PartialEq, Eq, Structural)]
pub enum ParseError {
    /// Fewer bytes remain than a field or record needs.
    Truncated,
    /// Four tag bytes are not valid UTF-8 text.
    MalformedTag,
    /// No null byte ends a text field.
    MissingTerminator,
    /// A chunk's tag is not the one the caller expects.
    UnexpectedChunkTag,
    /// A chunk's data size is zero or not a multiple of its record size.
    InvalidPayloadSize,
    /// The tag searched for does not occur in the buffer.
    ChunkNotFound,
    /// The container's file type tag is not "LXOB".
    NotLxobFormat,
}

/// The decoded fields of a file header, as mathematical values.
pub ghost struct FileHeaderModel {
    pub iff_id: Seq<char>,
    pub byte_count: nat,
    pub file_type_tag: Seq<char>,
    pub version_tag: Seq<char>,
    pub major: u32,
    pub minor: u32,
    pub patch: u32,
    pub file_type_author: Seq<char>,
}

/// Deserialised data from a .lxo (LXOB) file header.
#[derive(Debug)]
pub struct FileHeader {
    pub iff_id: String,
    pub byte_count: ByteCount,
    pub file_type_tag: String,
    pub version_tag: String,
    pub major: u32,
    pub minor: u32,
    pub patch: u32,
    pub file_type_author: String,
}

impl View for FileHeader {
    type V = FileHeaderModel;

    open spec fn view(&self) -> FileHeaderModel {
        FileHeaderModel {
            iff_id: self.iff_id@,
            byte_count: self.byte_count as nat,
            file_type_tag: self.file_type_tag@,
            version_tag: self.version_tag@,
            major: self.major,
            minor: self.minor,
            patch: self.patch,
            file_type_author: self.file_type_author@,
        }
    }
}

/// The header with every text empty and every number zero.
pub open spec fn empty_file_header() -> FileHeaderModel {
    FileHeaderModel {
        iff_id: seq![],
        byte_count: 0,
        file_type_tag: seq![],
        version_tag: seq![],
        major: 0,
        minor: 0,
        patch: 0,
        file_type_author: seq![],
    }
}

impl FileHeader {
    fn new() -> (r: Self)
        ensures
            r@ == empty_file_header(),
    {
        Self {
            iff_id: String::new(),
            byte_count: 0,
            file_type_tag: String::new(),
            version_tag: String::new(),
            major: 0,
            minor: 0,
            patch: 0,
            file_type_author: String::new(),
        }
    }
}

impl Default for FileHeader {
    fn default() -> (r: Self)
        ensures
            r@ == empty_file_header(),
    {
        Self::new()
    }
}

/// The decoded header of one chunk, as mathematical values.
pub ghost struct ChunkHeaderModel {
    pub name: Seq<char>,
    pub data_size: nat,
}

/// Deserialised header from a single LXOB chunk.
#[derive(Debug)]
pub struct ChunkHeader {
    pub name: String,
    pub data_size: ByteCount,
}

impl View for ChunkHeader {
    type V = ChunkHeaderModel;

    open spec fn view(&self) -> ChunkHeaderModel {
        ChunkHeaderModel { name: self.name@, data_size: self.data_size as nat }
    }
}

impl ChunkHeader {
    pub fn new() -> (r: Self)
        ensures
            r@.name.len() == 0,
            r@.data_size == 0,
    {
        Self { name: String::new(), data_size: 0 }
    }
}

impl Default for ChunkHeader {
    fn default() -> (r: Self)
        ensures
            r@.name.len() == 0,
            r@.data_size == 0,
    {
        Self::new()
    }
}

/// Deserialised header and data from a single LXOB chunk.
#[derive(Debug)]
pub struct Chunk<T> {
    pub header: ChunkHeader,
    pub data: Vec<T>,
}

impl<T> Chunk<T> {
    pub fn new() -> (r: Self)
        ensures
            r.header@.name.len() == 0,
            r.header@.data_size == 0,
            r.data@.len() == 0,
    {
        Self { header: ChunkHeader::new(), data: Vec::new() }
    }

    /// Size of the chunk in the file: its header and its unpadded data.
    pub fn binary_size(self) -> (r: ByteCount)
        requires
            self.header.data_size <= usize::MAX - CHUNK_HEADER_SIZE,
        ensures
            r == CHUNK_HEADER_SIZE + self.header.data_size,
    {
        CHUNK_HEADER_SIZE + self.header.data_size
    }
}

impl<T> Default for Chunk<T> {
    fn default() -> (r: Self)
        ensures
            r.header@.name.len() == 0,
            r.header@.data_size == 0,
            r.data@.len() == 0,
    {
        Self::new()
    }
}

} // verus!
