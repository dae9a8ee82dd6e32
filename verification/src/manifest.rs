//! The manifest of a container: what it holds, and where.

use vstd::prelude::*;
use vstd::string::StringExecFns;
use vstd::string::StringSliceAdditionalSpecFns;
use vstd::utf8::encode_utf8;
use crate::error::Error;
use crate::hash::{blake3_digest, blake3_hash};
use crate::target::Target;
use crate::text::{bytes_equal, decimal, decimal_digits, str_eq};

verus! {

/// The codec of the payloads of a container.
#[derive(Debug, Clone, Copy, PartialEq, Eq, Structural)]
pub enum Compression {
    /// Payloads are stored as they are.
    Uncompressed,
    /// Zstandard.
    Zstd,
    /// LZ4.
    Lz4,
}

impl Compression {
    /// The byte that stands for this codec in a header.
    pub open spec fn byte(self) -> u8 {
        match self {
            Compression::Uncompressed => 0,
            Compression::Zstd => 1,
            Compression::Lz4 => 2,
        }
    }

    /// The codec that the byte `b` stands for, if there is one.
    pub open spec fn of_byte(b: u8) -> Option<Compression> {
        if b == 0 {
            Some(Compression::Uncompressed)
        } else if b == 1 {
            Some(Compression::Zstd)
        } else if b == 2 {
            Some(Compression::Lz4)
        } else {
            None
        }
    }

    /// The byte that stands for this codec in a header.
    pub fn as_byte(&self) -> (b: u8)
        ensures
            b == self.byte(),
            Compression::of_byte(b) == Some(*self),
    {
        match self {
            Compression::Uncompressed => 0,
            Compression::Zstd => 1,
            Compression::Lz4 => 2,
        }
    }

    /// Reads the codec from its byte.
    pub fn from_byte(b: u8) -> (r: Result<Self, Error>)
        ensures
            match r {
                Ok(c) => Compression::of_byte(b) == Some(c) && c.byte() == b,
                Err(Error::UnknownCompression(found)) => found == b && Compression::of_byte(b)
                    is None,
                Err(_) => false,
            },
    {
        if b == 0 {
            Ok(Compression::Uncompressed)
        } else if b == 1 {
            Ok(Compression::Zstd)
        } else if b == 2 {
            Ok(Compression::Lz4)
        } else {
            Err(Error::UnknownCompression(b))
        }
    }
}

impl Default for Compression {
    fn default() -> (c: Self)
        ensures
            c == Compression::Zstd,
    {
        Compression::Zstd
    }
}

// ---------------------------------------------------------------------------
// Checksums in hexadecimal
// ---------------------------------------------------------------------------

/// The lowercase hexadecimal digit for `n`, which is below 16.
pub open spec fn hex_digit(n: int) -> char {
    if n == 0 {
        '0'
    } else if n == 1 {
        '1'
    } else if n == 2 {
        '2'
    } else if n == 3 {
        '3'
    } else if n == 4 {
        '4'
    } else if n == 5 {
        '5'
    } else if n == 6 {
        '6'
    } else if n == 7 {
        '7'
    } else if n == 8 {
        '8'
    } else if n == 9 {
        '9'
    } else if n == 10 {
        'a'
    } else if n == 11 {
        'b'
    } else if n == 12 {
        'c'
    } else if n == 13 {
        'd'
    } else if n == 14 {
        'e'
    } else {
        'f'
    }
}

/// `bytes` in lowercase hexadecimal, two digits for each byte, the higher
/// first.
pub open spec fn hex_text(bytes: Seq<u8>) -> Seq<char> {
    Seq::new(
        2 * bytes.len(),
        |k: int|
            if k % 2 == 0 {
                hex_digit(bytes[k / 2] as int / 16)
            } else {
                hex_digit(bytes[k / 2] as int % 16)
            },
    )
}

/// The number that the ASCII byte `c` stands for as a hexadecimal digit, of
/// either case.
pub open spec fn hex_value(c: u8) -> Option<u8> {
    if 0x30 <= c <= 0x39 {
        Some((c - 0x30) as u8)
    } else if 0x61 <= c <= 0x66 {
        Some((c - 0x61 + 10) as u8)
    } else if 0x41 <= c <= 0x46 {
        Some((c - 0x41 + 10) as u8)
    } else {
        None
    }
}

/// Whether `text` is a checksum: 64 hexadecimal digits.
pub open spec fn is_hex_checksum(text: Seq<u8>) -> bool {
    &&& text.len() == 64
    &&& forall|k: int| 0 <= k < 64 ==> (#[trigger] hex_value(text[k])) is Some
}

/// The 32 bytes that the 64 hexadecimal digits of `text` stand for.
pub open spec fn checksum_of_hex(text: Seq<u8>) -> Seq<u8> {
    Seq::new(
        32,
        |k: int| (hex_value(text[2 * k])->0 * 16 + hex_value(text[2 * k + 1])->0) as u8,
    )
}

fn hex_digit_str(n: u8) -> (s: &'static str)
    requires
        n < 16,
    ensures
        s@ == seq![hex_digit(n as int)],
{
    proof {
        reveal_strlit("0");
        reveal_strlit("1");
        reveal_strlit("2");
        reveal_strlit("3");
        reveal_strlit("4");
        reveal_strlit("5");
        reveal_strlit("6");
        reveal_strlit("7");
        reveal_strlit("8");
        reveal_strlit("9");
        reveal_strlit("a");
        reveal_strlit("b");
        reveal_strlit("c");
        reveal_strlit("d");
        reveal_strlit("e");
        reveal_strlit("f");
    }
    let s = if n == 0 {
        "0"
    } else if n == 1 {
        "1"
    } else if n == 2 {
        "2"
    } else if n == 3 {
        "3"
    } else if n == 4 {
        "4"
    } else if n == 5 {
        "5"
    } else if n == 6 {
        "6"
    } else if n == 7 {
        "7"
    } else if n == 8 {
        "8"
    } else if n == 9 {
        "9"
    } else if n == 10 {
        "a"
    } else if n == 11 {
        "b"
    } else if n == 12 {
        "c"
    } else if n == 13 {
        "d"
    } else if n == 14 {
        "e"
    } else {
        "f"
    };
    assert(s@ =~= seq![hex_digit(n as int)]);
    s
}

/// Writes `bytes` in lowercase hexadecimal.
pub fn hex_encode(bytes: &[u8]) -> (s: String)
    ensures
        s@ == hex_text(bytes@),
{
    let mut s = String::new();
    let mut i: usize = 0;
    while i < bytes.len()
        invariant
            i <= bytes@.len(),
            s@ == hex_text(bytes@.subrange(0, i as int)),
        decreases bytes@.len() - i,
    {
        let b = bytes[i];
        let ghost before = s@;
        s.append(hex_digit_str(b / 16));
        s.append(hex_digit_str(b % 16));
        assert(s@ =~= hex_text(bytes@.subrange(0, i + 1))) by {
            let shorter = bytes@.subrange(0, i as int);
            let longer = bytes@.subrange(0, i + 1);
            assert(s@ == before + seq![hex_digit(b as int / 16)] + seq![hex_digit(b as int % 16)]);
            assert forall|k: int| 0 <= k < 2 * (i + 1) implies s@[k] == hex_text(longer)[k] by {
                if k < 2 * i {
                    assert(s@[k] == hex_text(shorter)[k]);
                    assert(shorter[k / 2] == longer[k / 2]);
                } else {
                    assert(longer[k / 2] == b);
                }
            }
        }
        i += 1;
    }
    assert(bytes@.subrange(0, i as int) =~= bytes@);
    s
}

fn hex_digit_value(c: u8) -> (r: Option<u8>)
    ensures
        r == hex_value(c),
        r is Some ==> r->0 < 16,
{
    if 0x30 <= c && c <= 0x39 {
        Some(c - 0x30)
    } else if 0x61 <= c && c <= 0x66 {
        Some(c - 0x61 + 10)
    } else if 0x41 <= c && c <= 0x46 {
        Some(c - 0x41 + 10)
    } else {
        None
    }
}

/// Reads a checksum of 64 hexadecimal digits. Anything else is refused as a
/// `ChecksumMismatch` that says what was expected: `64 hex characters` where
/// the length is another, with the length that was found, else `valid hex`.
pub fn hex_decode(hex: &str) -> (r: Result<[u8; 32], Error>)
    ensures
        match r {
            Ok(bytes) => is_hex_checksum(hex.spec_bytes()) && bytes@ == checksum_of_hex(
                hex.spec_bytes(),
            ),
            Err(Error::ChecksumMismatch { expected, actual }) => !is_hex_checksum(
                hex.spec_bytes(),
            ) && if hex.spec_bytes().len() != 64 {
                expected@ == "64 hex characters"@ && actual@ == decimal_digits(
                    hex.spec_bytes().len(),
                ) + " characters"@
            } else {
                expected@ == "valid hex"@
            },
            Err(_) => false,
        },
{
    let text = hex.as_bytes();
    if text.len() != 64 {
        let mut actual = decimal(text.len() as u64);
        actual.append(" characters");
        return Err(
            Error::ChecksumMismatch { expected: "64 hex characters".to_owned(), actual },
        );
    }
    let mut bytes = [0u8;32];
    let mut i: usize = 0;
    while i < 32
        invariant
            i <= 32,
            text@.len() == 64,
            text@ == hex.spec_bytes(),
            forall|k: int| 0 <= k < 2 * i ==> (#[trigger] hex_value(text@[k])) is Some,
            forall|k: int|
                0 <= k < i ==> bytes@[k] == (hex_value(text@[2 * k])->0 * 16 + hex_value(
                    text@[2 * k + 1],
                )->0) as u8,
        decreases 32 - i,
    {
        let high = hex_digit_value(text[2 * i]);
        let low = hex_digit_value(text[2 * i + 1]);
        match (high, low) {
            (Some(h), Some(l)) => {
                bytes[i] = h * 16 + l;
            },
            _ => {
                let mut actual = "invalid hex at byte ".to_owned();
                actual.append(decimal(2 * i as u64).as_str());
                assert(!is_hex_checksum(text@)) by {
                    assert(hex_value(text@[2 * i as int]) is None || hex_value(
                        text@[2 * i + 1],
                    ) is None);
                }
                return Err(Error::ChecksumMismatch { expected: "valid hex".to_owned(), actual });
            },
        }
        i += 1;
    }
    assert(bytes@ =~= checksum_of_hex(text@));
    Ok(bytes)
}

/// A checksum that was written in hexadecimal reads back as it was.
pub proof fn lemma_hex_round_trip(bytes: Seq<u8>)
    requires
        bytes.len() == 32,
    ensures
        is_hex_checksum(encode_utf8(hex_text(bytes))),
        checksum_of_hex(encode_utf8(hex_text(bytes))) == bytes,
{
    let text = hex_text(bytes);
    assert forall|k: int| 0 <= k < text.len() implies '\0' <= #[trigger] text[k] <= '\x7f' by {}
    vstd::utf8::is_ascii_chars_encode_utf8(text);
    let encoded = encode_utf8(text);
    assert(encoded.len() == 64);
    assert forall|k: int| 0 <= k < 64 implies (#[trigger] hex_value(encoded[k])) is Some
        && hex_value(encoded[k])->0 == if k % 2 == 0 {
        bytes[k / 2] as int / 16
    } else {
        bytes[k / 2] as int % 16
    } by {
        assert(encoded[k] == text[k] as u8);
    }
    assert forall|k: int| 0 <= k < 32 implies checksum_of_hex(encoded)[k] == bytes[k] by {
        assert(hex_value(encoded[2 * k]) is Some);
        assert(hex_value(encoded[2 * k + 1]) is Some);
    }
    assert(checksum_of_hex(encoded) =~= bytes);
}

// ---------------------------------------------------------------------------
// Entries
// ---------------------------------------------------------------------------

/// One payload of a container, as the manifest describes it.
#[derive(Debug, Clone)]
pub struct PbinEntry {
    /// The canonical identifier of the target.
    pub target: String,
    /// Where in the file the payload starts.
    pub offset: u64,
    /// The length of the payload as stored.
    pub compressed_size: u64,
    /// The length of the binary that the payload unpacks to.
    pub uncompressed_size: u64,
    /// The BLAKE3 digest of the unpacked binary, in lowercase hexadecimal.
    pub checksum: String,
    /// The target whose binary this payload is a patch against, if it is one.
    pub delta_reference: Option<String>,
    /// The length of the patch before compression, when the payload is one.
    pub patch_size: u64,
    /// Whether the binary went through its branch filter before it was stored.
    pub bcj_filtered: bool,
}

impl PbinEntry {
    /// An entry for a payload that is stored whole and unfiltered.
    pub fn new(
        target: Target,
        offset: u64,
        compressed_size: u64,
        uncompressed_size: u64,
        checksum: [u8; 32],
    ) -> (e: Self)
        ensures
            e.target@ == target.name(),
            e.offset == offset,
            e.compressed_size == compressed_size,
            e.uncompressed_size == uncompressed_size,
            e.checksum@ == hex_text(checksum@),
            e.delta_reference is None,
            e.patch_size == 0,
            !e.bcj_filtered,
    {
        PbinEntry {
            target: target.as_str().to_owned(),
            offset,
            compressed_size,
            uncompressed_size,
            checksum: hex_encode(&checksum),
            delta_reference: None,
            patch_size: 0,
            bcj_filtered: false,
        }
    }

    /// Reads the target of this entry.
    pub fn target(&self) -> (r: Result<Target, Error>)
        ensures
            match r {
                Ok(t) => Target::named(self.target@) == Some(t),
                Err(Error::InvalidTarget(name)) => Target::named(self.target@) is None && name@
                    == self.target@,
                Err(_) => false,
            },
    {
        match Target::from_str(self.target.as_str()) {
            Some(t) => Ok(t),
            None => Err(Error::InvalidTarget(self.target.clone())),
        }
    }

    /// Reads the checksum of this entry.
    pub fn checksum_bytes(&self) -> (r: Result<[u8; 32], Error>)
        ensures
            match r {
                Ok(bytes) => is_hex_checksum(encode_utf8(self.checksum@)) && bytes@
                    == checksum_of_hex(encode_utf8(self.checksum@)),
                Err(Error::ChecksumMismatch { expected, actual }) => !is_hex_checksum(
                    encode_utf8(self.checksum@),
                ),
                Err(_) => false,
            },
    {
        hex_decode(self.checksum.as_str())
    }

    /// Whether the BLAKE3 digest of `data` is the checksum of this entry.
    pub fn verify_checksum(&self, data: &[u8]) -> (r: Result<bool, Error>)
        ensures
            match r {
                Ok(same) => is_hex_checksum(encode_utf8(self.checksum@)) && same == (
                checksum_of_hex(encode_utf8(self.checksum@)) == blake3_digest(data@)),
                Err(Error::ChecksumMismatch { expected, actual }) => !is_hex_checksum(
                    encode_utf8(self.checksum@),
                ),
                Err(_) => false,
            },
    {
        match self.checksum_bytes() {
            Ok(expected) => {
                let actual = blake3_hash(data);
                Ok(bytes_equal(&actual, &expected))
            },
            Err(e) => Err(e),
        }
    }
}

// ---------------------------------------------------------------------------
// The manifest
// ---------------------------------------------------------------------------

/// What a container holds: a program, its version, and one entry for each
/// payload, in the order in which the payloads stand in the file.
#[derive(Debug, Clone)]
pub struct PbinManifest {
    /// The name of the program.
    pub name: String,
    /// The version of the program.
    pub version: String,
    /// The entries, in the order of their payloads.
    pub entries: Vec<PbinEntry>,
    /// The length of the dictionary that stands before the first payload, zero
    /// if there is none.
    pub dictionary_size: u64,
}

/// The index of the first of `entries` from `from` on whose target is `name`.
pub open spec fn entry_named(entries: Seq<PbinEntry>, name: Seq<char>, from: int) -> Option<int>
    decreases entries.len() - from,
{
    if from < 0 || from >= entries.len() {
        None
    } else if entries[from].target@ == name {
        Some(from)
    } else {
        entry_named(entries, name, from + 1)
    }
}

/// What `entry_named` finds is an entry of that name with none of that name
/// between `from` and it; what it does not find is not there.
pub proof fn lemma_entry_named(entries: Seq<PbinEntry>, name: Seq<char>, from: int)
    requires
        0 <= from,
    ensures
        match entry_named(entries, name, from) {
            Some(i) => from <= i < entries.len() && entries[i].target@ == name && forall|k: int|
                from <= k < i ==> (#[trigger] entries[k]).target@ != name,
            None => forall|k: int|
                from <= k < entries.len() ==> (#[trigger] entries[k]).target@ != name,
        },
    decreases entries.len() - from,
{
    if from < entries.len() && entries[from].target@ != name {
        lemma_entry_named(entries, name, from + 1);
    }
}

impl PbinManifest {
    /// A manifest without entries and without a dictionary.
    pub fn new(name: String, version: String) -> (m: Self)
        ensures
            m.name == name,
            m.version == version,
            m.entries@.len() == 0,
            m.dictionary_size == 0,
    {
        PbinManifest { name, version, entries: Vec::new(), dictionary_size: 0 }
    }

    /// Adds an entry behind those that are there.
    pub fn add_entry(&mut self, entry: PbinEntry)
        ensures
            final(self).entries@ == old(self).entries@.push(entry),
            final(self).name == old(self).name,
            final(self).version == old(self).version,
            final(self).dictionary_size == old(self).dictionary_size,
    {
        self.entries.push(entry);
    }

    /// The index of the first entry whose target is `name`.
    pub fn position_of(&self, name: &str) -> (r: Option<usize>)
        ensures
            match r {
                Some(i) => entry_named(self.entries@, name@, 0) == Some(i as int) && i
                    < self.entries@.len(),
                None => entry_named(self.entries@, name@, 0) is None,
            },
    {
        let mut i: usize = 0;
        while i < self.entries.len()
            invariant
                i <= self.entries@.len(),
                entry_named(self.entries@, name@, 0) == entry_named(
                    self.entries@,
                    name@,
                    i as int,
                ),
            decreases self.entries@.len() - i,
        {
            if str_eq(self.entries[i].target.as_str(), name) {
                return Some(i);
            }
            i += 1;
        }
        None
    }

    /// The first entry for `target`.
    pub fn find_entry(&self, target: Target) -> (r: Option<&PbinEntry>)
        ensures
            match entry_named(self.entries@, target.name(), 0) {
                Some(i) => r == Some(&self.entries@[i]),
                None => r is None,
            },
    {
        match self.position_of(target.as_str()) {
            Some(i) => Some(&self.entries[i]),
            None => None,
        }
    }

    /// The entry for the running host, whose target is `host` if the host is a
    /// supported one.
    pub fn find_current_entry(&self, host: Option<Target>) -> (r: Result<&PbinEntry, Error>)
        ensures
            match r {
                Ok(e) => host is Some && entry_named(self.entries@, host->0.name(), 0) is Some
                    && e == &self.entries@[entry_named(self.entries@, host->0.name(), 0)->0],
                Err(Error::UnsupportedPlatform) => host is None,
                Err(Error::TargetNotFound(name)) => host is Some && entry_named(
                    self.entries@,
                    host->0.name(),
                    0,
                ) is None && name@ == host->0.name(),
                Err(_) => false,
            },
    {
        match host {
            None => Err(Error::UnsupportedPlatform),
            Some(target) => match self.find_entry(target) {
                Some(e) => Ok(e),
                None => Err(Error::TargetNotFound(target.as_str().to_owned())),
            },
        }
    }
}

} // verus!
