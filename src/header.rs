//! The fixed 24-byte header at the start of a trace file.
use vstd::prelude::*;

use crate::bytes::{le_u64, read_u64_le};

verus! {

/// Size in bytes of the header.
pub const HEADER_SIZE: usize = 24;

/// The only version of the format that this library reads.
pub const SUPPORTED_VERSION: u8 = 1;

/// Layout: magic (5 bytes, `"RAM2\0"`), version (1), number of commands (1),
/// one reserved byte, number of entries (8, little-endian) and the absolute
/// offset of the dictionary section (8, little-endian).
#[derive(Debug, Clone, Copy, PartialEq, Eq)]
pub struct Header {
    pub magic: [u8; 5],
    pub version: u8,
    pub num_commands: u8,
    pub reserved: u8,
    pub num_entries: u64,
    pub dict_offset: u64,
}

#[derive(Debug, Clone, Copy, PartialEq, Eq, Structural)]
pub enum HeaderError {
    FileTooShort,
    InvalidMagic,
    UnsupportedVersion,
}

/// The five magic bytes `"RAM2\0"`.
pub open spec fn is_magic(m: Seq<u8>) -> bool {
    &&& m.len() == 5
    &&& m[0] == 0x52
    &&& m[1] == 0x41
    &&& m[2] == 0x4d
    &&& m[3] == 0x32
    &&& m[4] == 0
}

/// `h` holds the header fields stored in the first 24 bytes of `data`.
pub open spec fn decodes_header(data: Seq<u8>, h: Header) -> bool {
    &&& data.len() >= HEADER_SIZE
    &&& h.magic@ == data.subrange(0, 5)
    &&& h.version == data[5]
    &&& h.num_commands == data[6]
    &&& h.reserved == data[7]
    &&& h.num_entries == le_u64(data, 8)
    &&& h.dict_offset == le_u64(data, 16)
}

/// The header validation outcome on `data`, checked in order: length,
/// magic, version.
pub open spec fn header_check(data: Seq<u8>) -> Result<(), HeaderError> {
    if data.len() < HEADER_SIZE {
        Err(HeaderError::FileTooShort)
    } else if !is_magic(data.subrange(0, 5)) {
        Err(HeaderError::InvalidMagic)
    } else if data[5] != SUPPORTED_VERSION {
        Err(HeaderError::UnsupportedVersion)
    } else {
        Ok(())
    }
}

impl HeaderError {
    pub fn message(&self) -> (r: String)
        ensures
            *self is FileTooShort ==> r@ == "file too short"@,
            *self is InvalidMagic ==> r@ == "invalid magic number"@,
            *self is UnsupportedVersion ==> r@ == "unsupported version"@,
    {
        match self {
            HeaderError::FileTooShort => "file too short".to_owned(),
            HeaderError::InvalidMagic => "invalid magic number".to_owned(),
            HeaderError::UnsupportedVersion => "unsupported version".to_owned(),
        }
    }
}

impl Header {
    pub fn num_commands(&self) -> (r: u8)
        ensures
            r == self.num_commands,
    {
        self.num_commands
    }

    pub fn num_entries(&self) -> (r: u64)
        ensures
            r == self.num_entries,
    {
        self.num_entries
    }

    pub fn dict_offset(&self) -> (r: u64)
        ensures
            r == self.dict_offset,
    {
        self.dict_offset
    }

    pub fn is_valid_magic(&self) -> (r: bool)
        ensures
            r == is_magic(self.magic@),
    {
        self.magic[0] == 0x52 && self.magic[1] == 0x41 && self.magic[2] == 0x4d && self.magic[3]
            == 0x32 && self.magic[4] == 0
    }

    pub fn is_supported_version(&self) -> (r: bool)
        ensures
            r == (self.version == SUPPORTED_VERSION),
    {
        self.version == SUPPORTED_VERSION
    }
}

/// Reads and validates the header at the start of `data`.
pub fn parse(data: &[u8]) -> (r: Result<Header, HeaderError>)
    ensures
        match header_check(data@) {
            Ok(()) => r is Ok && decodes_header(data@, r->Ok_0),
            Err(e) => r == Err::<Header, HeaderError>(e),
        },
{
    if data.len() < HEADER_SIZE {
        return Err(HeaderError::FileTooShort);
    }
    let header = Header {
        magic: [data[0], data[1], data[2], data[3], data[4]],
        version: data[5],
        num_commands: data[6],
        reserved: data[7],
        num_entries: read_u64_le(data, 8),
        dict_offset: read_u64_le(data, 16),
    };
    assert(header.magic@ =~= data@.subrange(0, 5));
    if !header.is_valid_magic() {
        return Err(HeaderError::InvalidMagic);
    }
    if !header.is_supported_version() {
        return Err(HeaderError::UnsupportedVersion);
    }
    Ok(header)
}

/// Law of header validation: bytes shorter than a header are too short
/// before any magic check, and with a full header the first five bytes
/// alone decide whether the magic is invalid.
pub proof fn lemma_validation_order(data: Seq<u8>)
    ensures
        data.len() < HEADER_SIZE ==> header_check(data) == Err::<(), HeaderError>(
            HeaderError::FileTooShort,
        ),
        data.len() >= HEADER_SIZE && !is_magic(data.subrange(0, 5)) ==> header_check(data) == Err::<
            (),
            HeaderError,
        >(HeaderError::InvalidMagic),
{
}

} // verus!
