//! The fixed header of a container, and the marker that stands before it.

use vstd::prelude::*;
use crate::endian::{
    half_byte, le_half, lemma_half_bytes, lemma_word_of_bytes, read_half, read_word, word_at,
    word_byte,
};
use crate::error::Error;
use crate::manifest::Compression;
use crate::text::{matches_at, occurs_at};

verus! {

/// The four bytes that a header starts with: `PBIN`.
pub const PBIN_MAGIC: [u8; 4] = [0x50, 0x42, 0x49, 0x4E];

/// The format version that this library reads and writes.
pub const PBIN_VERSION: u16 = 1;

/// The length of a header in bytes.
pub const HEADER_SIZE: usize = 64;

/// The sixteen bytes `__PBIN_PAYLOAD__` that end the launcher.
pub const PAYLOAD_MARKER: [u8; 16] = [
    0x5F, 0x5F, 0x50, 0x42, 0x49, 0x4E, 0x5F, 0x50, 0x41, 0x59, 0x4C, 0x4F, 0x41, 0x44, 0x5F, 0x5F,
];

/// The 64-byte header of a container.
#[derive(Debug, Clone)]
pub struct PbinHeader {
    /// The magic bytes, `PBIN` in a valid header.
    pub magic: [u8; 4],
    /// The format version.
    pub version: u16,
    /// The codec of every payload.
    pub compression: Compression,
    /// The number of manifest entries.
    pub entry_count: u8,
    /// The length of the manifest in bytes.
    pub manifest_size: u32,
    /// Reserved flags, zero.
    pub flags: u32,
}

/// The 64 bytes that stand for `h`: magic, version, compression kind, entry
/// count, manifest size and flags, the integers little-endian, then 48 zeros.
pub open spec fn header_bytes(h: PbinHeader) -> Seq<u8> {
    Seq::new(
        64,
        |k: int|
            if k < 4 {
                h.magic@[k]
            } else if k < 6 {
                half_byte(h.version, k - 4)
            } else if k == 6 {
                h.compression.byte()
            } else if k == 7 {
                h.entry_count
            } else if k < 12 {
                word_byte(h.manifest_size, k - 8)
            } else if k < 16 {
                word_byte(h.flags, k - 12)
            } else {
                0u8
            },
    )
}

/// Whether the fields of `h` are what `bytes` holds in its first 16 places.
pub open spec fn header_reads(bytes: Seq<u8>, h: PbinHeader) -> bool {
    &&& h.magic@ == bytes.subrange(0, 4)
    &&& h.version == le_half(bytes[4], bytes[5])
    &&& h.compression.byte() == bytes[6]
    &&& h.entry_count == bytes[7]
    &&& h.manifest_size == word_at(bytes, 8)
    &&& h.flags == word_at(bytes, 12)
}

/// Whether `r` is what reading a header from the start of `bytes` gives: the
/// header whose fields `bytes` holds, or the error of the first test that
/// fails: fewer than 64 bytes, another magic than `PBIN`, another version
/// than 1, a compression kind that does not exist.
pub open spec fn header_outcome(bytes: Seq<u8>, r: Result<PbinHeader, Error>) -> bool {
    match r {
        Ok(h) => bytes.len() >= 64 && h.valid() && header_reads(bytes, h),
        Err(Error::HeaderTooShort { expected, actual }) => bytes.len() < 64 && expected == 64
            && actual == bytes.len(),
        Err(Error::InvalidMagic(found)) => bytes.len() >= 64 && found@ == bytes.subrange(0, 4)
            && found@ != PBIN_MAGIC@,
        Err(Error::UnsupportedVersion(v)) => bytes.len() >= 64 && bytes.subrange(0, 4)
            == PBIN_MAGIC@ && v == le_half(bytes[4], bytes[5]) && v != PBIN_VERSION,
        Err(Error::UnknownCompression(b)) => bytes.len() >= 64 && bytes.subrange(0, 4)
            == PBIN_MAGIC@ && le_half(bytes[4], bytes[5]) == PBIN_VERSION && b == bytes[6]
            && Compression::of_byte(b) is None,
        Err(_) => false,
    }
}

impl PbinHeader {
    /// Whether this is a header that `from_bytes` accepts: the magic is `PBIN`
    /// and the version is the current one.
    pub open spec fn valid(self) -> bool {
        self.magic@ == PBIN_MAGIC@ && self.version == PBIN_VERSION
    }

    /// A header of the current version with no flags set.
    pub fn new(compression: Compression, entry_count: u8, manifest_size: u32) -> (h: Self)
        ensures
            h.valid(),
            h.compression == compression,
            h.entry_count == entry_count,
            h.manifest_size == manifest_size,
            h.flags == 0,
    {
        PbinHeader {
            magic: PBIN_MAGIC,
            version: PBIN_VERSION,
            compression,
            entry_count,
            manifest_size,
            flags: 0,
        }
    }

    /// Reads a header from the start of `bytes`. The first failing test of
    /// length, magic, version and compression kind decides the error.
    pub fn from_bytes(bytes: &[u8]) -> (r: Result<Self, Error>)
        ensures
            header_outcome(bytes@, r),
    {
        if bytes.len() < HEADER_SIZE {
            return Err(Error::HeaderTooShort { expected: HEADER_SIZE, actual: bytes.len() });
        }
        let magic: [u8; 4] = [bytes[0], bytes[1], bytes[2], bytes[3]];
        assert(magic@ =~= bytes@.subrange(0, 4));
        if magic[0] != PBIN_MAGIC[0] || magic[1] != PBIN_MAGIC[1] || magic[2] != PBIN_MAGIC[2]
            || magic[3] != PBIN_MAGIC[3] {
            return Err(Error::InvalidMagic(magic));
        }
        assert(magic@ =~= PBIN_MAGIC@);
        let version = read_half(bytes, 4);
        if version != PBIN_VERSION {
            return Err(Error::UnsupportedVersion(version));
        }
        let compression = match Compression::from_byte(bytes[6]) {
            Ok(c) => c,
            Err(e) => {
                return Err(e);
            },
        };
        let entry_count = bytes[7];
        let manifest_size = read_word(bytes, 8);
        let flags = read_word(bytes, 12);
        Ok(PbinHeader { magic, version, compression, entry_count, manifest_size, flags })
    }

    /// The 64 bytes that stand for this header.
    pub fn to_bytes(&self) -> (bytes: [u8; 64])
        ensures
            bytes@ == header_bytes(*self),
    {
        let mut bytes = [0u8;64];
        bytes[0] = self.magic[0];
        bytes[1] = self.magic[1];
        bytes[2] = self.magic[2];
        bytes[3] = self.magic[3];
        bytes[4] = (self.version & 0xFF) as u8;
        bytes[5] = ((self.version >> 8) & 0xFF) as u8;
        bytes[6] = self.compression.as_byte();
        bytes[7] = self.entry_count;
        bytes[8] = (self.manifest_size & 0xFF) as u8;
        bytes[9] = ((self.manifest_size >> 8) & 0xFF) as u8;
        bytes[10] = ((self.manifest_size >> 16) & 0xFF) as u8;
        bytes[11] = ((self.manifest_size >> 24) & 0xFF) as u8;
        bytes[12] = (self.flags & 0xFF) as u8;
        bytes[13] = ((self.flags >> 8) & 0xFF) as u8;
        bytes[14] = ((self.flags >> 16) & 0xFF) as u8;
        bytes[15] = ((self.flags >> 24) & 0xFF) as u8;
        assert(bytes@ =~= header_bytes(*self));
        bytes
    }
}

/// The bytes written for a valid header read back as that header, whatever
/// follows them.
pub proof fn lemma_header_round_trip(h: PbinHeader, rest: Seq<u8>)
    requires
        h.valid(),
    ensures
        (header_bytes(h) + rest).len() >= 64,
        header_reads(header_bytes(h) + rest, h),
        (header_bytes(h) + rest).subrange(0, 4) == PBIN_MAGIC@,
        le_half((header_bytes(h) + rest)[4], (header_bytes(h) + rest)[5]) == PBIN_VERSION,
        Compression::of_byte((header_bytes(h) + rest)[6]) == Some(h.compression),
{
    let b = header_bytes(h) + rest;
    lemma_half_bytes(h.version, 0, 0);
    lemma_word_of_bytes(h.manifest_size);
    lemma_word_of_bytes(h.flags);
    assert(b.subrange(0, 4) =~= h.magic@);
    assert(b[4] == half_byte(h.version, 0) && b[5] == half_byte(h.version, 1));
    assert(b[8] == word_byte(h.manifest_size, 0) && b[9] == word_byte(h.manifest_size, 1)
        && b[10] == word_byte(h.manifest_size, 2) && b[11] == word_byte(h.manifest_size, 3));
    assert(b[12] == word_byte(h.flags, 0) && b[13] == word_byte(h.flags, 1) && b[14]
        == word_byte(h.flags, 2) && b[15] == word_byte(h.flags, 3));
}

/// Whether `at` is where the payload marker stands last in `data`.
pub open spec fn last_marker_at(data: Seq<u8>, at: int) -> bool {
    &&& occurs_at(data, PAYLOAD_MARKER@, at)
    &&& forall|later: int| at < later ==> !occurs_at(data, PAYLOAD_MARKER@, later)
}

/// Finds the payload marker: the index of its last occurrence in `data`, the
/// one that ends the launcher.
pub fn find_payload_marker(data: &[u8]) -> (r: Option<usize>)
    ensures
        match r {
            Some(at) => last_marker_at(data@, at as int),
            None => forall|at: int| !occurs_at(data@, PAYLOAD_MARKER@, at),
        },
{
    let marker = PAYLOAD_MARKER;
    if data.len() < 16 {
        return None;
    }
    let mut at: usize = data.len() - 16;
    loop
        invariant
            at + 16 <= data@.len(),
            marker@ == PAYLOAD_MARKER@,
            marker@.len() == 16,
            forall|later: int| at < later ==> !occurs_at(data@, PAYLOAD_MARKER@, later),
        decreases at,
    {
        if matches_at(data, &marker, at) {
            return Some(at);
        }
        if at == 0 {
            return None;
        }
        at -= 1;
    }
}

} // verus!
