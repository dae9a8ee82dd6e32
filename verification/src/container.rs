//! The layout of a container: launcher, header, manifest, dictionary and
//! payloads, written one after the other and read back by the offsets that
//! the manifest holds.

use vstd::prelude::*;
use vstd::slice::{slice_subrange, slice_to_vec};
use vstd::utf8::encode_utf8;
use crate::bcj::{
    arch_of_name, bcj_decode, bcj_transformed, lemma_bcj_keeps_length, lemma_bcj_round_trip,
    BcjArch,
};
use crate::delta::{apply_patch, lemma_owner, owner, patch_applied, Threshold};
use crate::dict::{decompress_bounded, zstd_decoded, MAX_OUTPUT_SIZE};
use crate::error::{CompressionError, Error};
use crate::hash::{blake3_digest, blake3_hash};
use crate::header::{
    find_payload_marker, header_bytes, header_outcome, last_marker_at, lemma_header_round_trip,
    PbinHeader, PAYLOAD_MARKER, PBIN_MAGIC, PBIN_VERSION,
};
use crate::manifest::{
    checksum_of_hex, entry_named, hex_encode, hex_text, is_hex_checksum, lemma_entry_named,
    lemma_hex_round_trip, Compression, PbinEntry, PbinManifest,
};
use crate::pipeline::{
    compressed, dictionary_bytes, entry_holds, filtered_data, filtered_inputs, is_filtered,
    CompressionResult,
};
use crate::target::Target;
use crate::text::occurs_at;

verus! {

// ---------------------------------------------------------------------------
// Offsets
// ---------------------------------------------------------------------------

/// Where the first payload starts: behind launcher, header, manifest and
/// dictionary.
pub open spec fn payloads_start(launcher_len: nat, manifest_len: nat, dictionary_size: nat) -> nat {
    launcher_len + 64 + manifest_len + dictionary_size
}

/// Where payload `i` starts when the payloads follow each other from `start`
/// on.
pub open spec fn offset_at(entries: Seq<PbinEntry>, start: nat, i: int) -> nat
    decreases i,
{
    if i <= 0 {
        start
    } else {
        offset_at(entries, start, i - 1) + entries[i - 1].compressed_size as nat
    }
}

/// Whether the offsets of `entries` are those of payloads that follow each
/// other from `start` on.
pub open spec fn laid_out(entries: Seq<PbinEntry>, start: nat) -> bool {
    forall|i: int|
        0 <= i < entries.len() ==> (#[trigger] entries[i]).offset == offset_at(entries, start, i)
}

/// Whether two lists of entries differ in their offsets at most.
pub open spec fn same_but_offsets(a: Seq<PbinEntry>, b: Seq<PbinEntry>) -> bool {
    &&& a.len() == b.len()
    &&& forall|i: int|
        0 <= i < a.len() ==> {
            &&& (#[trigger] a[i]).target == b[i].target
            &&& a[i].compressed_size == b[i].compressed_size
            &&& a[i].uncompressed_size == b[i].uncompressed_size
            &&& a[i].checksum == b[i].checksum
            &&& a[i].delta_reference == b[i].delta_reference
            &&& a[i].patch_size == b[i].patch_size
            &&& a[i].bcj_filtered == b[i].bcj_filtered
        }
}

proof fn lemma_offset_at_same(a: Seq<PbinEntry>, b: Seq<PbinEntry>, start: nat, i: int)
    requires
        a.len() == b.len(),
        0 <= i <= a.len(),
        forall|k: int| 0 <= k < i ==> (#[trigger] a[k]).compressed_size == b[k].compressed_size,
    ensures
        offset_at(a, start, i) == offset_at(b, start, i),
    decreases i,
{
    if i > 0 {
        lemma_offset_at_same(a, b, start, i - 1);
    }
}

proof fn lemma_offset_at_grows(entries: Seq<PbinEntry>, start: nat, i: int, j: int)
    requires
        0 <= i <= j,
    ensures
        offset_at(entries, start, i) <= offset_at(entries, start, j),
        i < j ==> offset_at(entries, start, i) + entries[i].compressed_size <= offset_at(
            entries,
            start,
            j,
        ),
    decreases j - i,
{
    if i < j {
        lemma_offset_at_grows(entries, start, i, j - 1);
    }
}

/// After the offsets are fixed, each payload lies within the file, which ends
/// where the last payload ends, and behind everything that comes before the
/// payloads; a payload ends where the next one starts, so that no two
/// overlap, and the offsets ascend, strictly behind a payload that is not
/// empty.
pub proof fn lemma_layout(entries: Seq<PbinEntry>, start: nat, i: int, j: int)
    requires
        laid_out(entries, start),
        0 <= i < entries.len(),
        i < j < entries.len(),
    ensures
        start <= entries[i].offset,
        entries[i].offset + entries[i].compressed_size <= offset_at(
            entries,
            start,
            entries.len() as int,
        ),
        entries[i].offset + entries[i].compressed_size <= entries[j].offset,
        j == i + 1 ==> entries[i].offset + entries[i].compressed_size == entries[j].offset,
        entries[i].compressed_size > 0 ==> entries[i].offset < entries[j].offset,
{
    lemma_offset_at_grows(entries, start, 0, i);
    lemma_offset_at_grows(entries, start, i, entries.len() as int);
    lemma_offset_at_grows(entries, start, i, j);
}

/// The same for a single payload, or the last.
pub proof fn lemma_layout_within(entries: Seq<PbinEntry>, start: nat, i: int)
    requires
        laid_out(entries, start),
        0 <= i < entries.len(),
    ensures
        start <= entries[i].offset,
        entries[i].offset + entries[i].compressed_size <= offset_at(
            entries,
            start,
            entries.len() as int,
        ),
{
    lemma_offset_at_grows(entries, start, 0, i);
    lemma_offset_at_grows(entries, start, i, entries.len() as int);
}

fn too_large() -> (e: Error)
    ensures
        e matches Error::Compression(CompressionError::InvalidData(_)),
{
    Error::Compression(CompressionError::InvalidData("Container too large".to_owned()))
}

fn inconsistent(what: &str) -> (e: Error)
    ensures
        e matches Error::Compression(CompressionError::InvalidData(_)),
{
    Error::Compression(CompressionError::InvalidData(what.to_owned()))
}

/// Where the file ends if the payloads of `entries` follow each other from
/// `start` on, if that is an offset that a manifest can hold.
fn end_of_payloads(entries: &Vec<PbinEntry>, start: u64) -> (r: Option<u64>)
    ensures
        match r {
            Some(end) => end == offset_at(entries@, start as nat, entries@.len() as int),
            None => offset_at(entries@, start as nat, entries@.len() as int) > u64::MAX,
        },
{
    let mut at: u64 = start;
    let mut i: usize = 0;
    while i < entries.len()
        invariant
            i <= entries@.len(),
            at == offset_at(entries@, start as nat, i as int),
        decreases entries@.len() - i,
    {
        let size = entries[i].compressed_size;
        if size > u64::MAX - at {
            proof {
                lemma_offset_at_grows(entries@, start as nat, i + 1, entries@.len() as int);
            }
            return None;
        }
        at += size;
        i += 1;
    }
    Some(at)
}

/// Writes into each entry the offset of its payload in a file that holds a
/// launcher of `launcher_len` bytes, a header, a manifest of `manifest_len`
/// bytes, the dictionary and then the payloads one after the other. Returns
/// the length of that file. A file too long for its offsets to be written is
/// refused, and the manifest is then left as it is.
pub fn place_payloads(manifest: &mut PbinManifest, launcher_len: usize, manifest_len: usize) -> (r:
    Result<u64, Error>)
    ensures
        final(manifest).name == old(manifest).name,
        final(manifest).version == old(manifest).version,
        final(manifest).dictionary_size == old(manifest).dictionary_size,
        same_but_offsets(old(manifest).entries@, final(manifest).entries@),
        match r {
            Ok(end) => laid_out(
                final(manifest).entries@,
                payloads_start(
                    launcher_len as nat,
                    manifest_len as nat,
                    old(manifest).dictionary_size as nat,
                ),
            ) && end == offset_at(
                final(manifest).entries@,
                payloads_start(
                    launcher_len as nat,
                    manifest_len as nat,
                    old(manifest).dictionary_size as nat,
                ),
                old(manifest).entries@.len() as int,
            ),
            Err(Error::Compression(CompressionError::InvalidData(_))) => final(manifest).entries@
                == old(manifest).entries@ && offset_at(
                old(manifest).entries@,
                payloads_start(
                    launcher_len as nat,
                    manifest_len as nat,
                    old(manifest).dictionary_size as nat,
                ),
                old(manifest).entries@.len() as int,
            ) > u64::MAX,
            Err(_) => false,
        },
{
    let ghost before = manifest.entries@;
    let ghost begin = payloads_start(
        launcher_len as nat,
        manifest_len as nat,
        manifest.dictionary_size as nat,
    );
    let wide = launcher_len as u128 + 64 + manifest_len as u128 + manifest.dictionary_size as u128;
    if wide > u64::MAX as u128 {
        proof {
            lemma_offset_at_grows(before, begin, 0, before.len() as int);
        }
        return Err(too_large());
    }
    let start = wide as u64;
    let end = match end_of_payloads(&manifest.entries, start) {
        Some(end) => end,
        None => {
            return Err(too_large());
        },
    };
    let n = manifest.entries.len();
    let mut at: u64 = start;
    let mut i: usize = 0;
    while i < n
        invariant
            i <= n,
            n == before.len(),
            manifest.entries@.len() == n,
            manifest.name == old(manifest).name,
            manifest.version == old(manifest).version,
            manifest.dictionary_size == old(manifest).dictionary_size,
            same_but_offsets(before, manifest.entries@),
            begin == start,
            end == offset_at(before, begin, n as int),
            at == offset_at(before, begin, i as int),
            forall|k: int| 0 <= k < i ==> (#[trigger] manifest.entries@[k]).offset == offset_at(
                before,
                begin,
                k,
            ),
        decreases n - i,
    {
        proof {
            lemma_offset_at_grows(before, begin, i + 1, n as int);
        }
        let size = manifest.entries[i].compressed_size;
        manifest.entries[i].offset = at;
        at += size;
        i += 1;
    }
    proof {
        assert forall|k: int| 0 <= k <= n implies offset_at(manifest.entries@, begin, k)
            == offset_at(before, begin, k) by {
            lemma_offset_at_same(manifest.entries@, before, begin, k);
        }
    }
    Ok(end)
}

// ---------------------------------------------------------------------------
// The fixed point of offsets and manifest length
// ---------------------------------------------------------------------------

/// What is to be done next while the offsets are fixed.
#[derive(Debug, Clone, Copy, PartialEq, Eq, Structural)]
pub enum FixupStep {
    /// The offsets have changed: the manifest is to be serialised again.
    Serialize,
    /// The offsets are those of a file that holds the manifest as it was
    /// serialised last.
    Done,
}

/// How often offsets are computed before the search for offsets that agree
/// with the manifest is given up. Lengths of real manifests settle after one
/// or two rounds.
pub const MAX_FIXUP_ROUNDS: usize = 8;

/// The search for offsets that agree with the length of the manifest that
/// holds them. The offsets depend on the length of the serialised manifest,
/// and that length on the digits of the offsets; so the manifest is
/// serialised, the offsets are computed for its length, and both are repeated
/// until the length stays.
pub struct OffsetFixup {
    manifest: PbinManifest,
    launcher_len: usize,
    settled: Option<usize>,
    rounds: usize,
}

impl OffsetFixup {
    /// Whether the offsets are those for the manifest length that they were
    /// computed for, which every fixup is that this library hands out.
    pub closed spec fn consistent(self) -> bool {
        &&& self.rounds <= MAX_FIXUP_ROUNDS
        &&& self.settled matches Some(len) ==> laid_out(
            self.manifest.entries@,
            payloads_start(
                self.launcher_len as nat,
                len as nat,
                self.manifest.dictionary_size as nat,
            ),
        )
    }

    /// The manifest as it stands.
    pub closed spec fn manifest(self) -> PbinManifest {
        self.manifest
    }

    /// The length of the launcher that the file starts with.
    pub closed spec fn launcher_len(self) -> usize {
        self.launcher_len
    }

    /// The manifest length that the offsets were computed for, if they have
    /// been computed.
    pub closed spec fn settled(self) -> Option<usize> {
        self.settled
    }

    /// How often offsets have been computed.
    pub closed spec fn rounds(self) -> usize {
        self.rounds
    }

    /// Whether offsets for a manifest of `len` bytes can be written: the file
    /// is not longer than an offset can say.
    pub open spec fn fits(self, len: usize) -> bool {
        offset_at(
            self.manifest().entries@,
            payloads_start(
                self.launcher_len() as nat,
                len as nat,
                self.manifest().dictionary_size as nat,
            ),
            self.manifest().entries@.len() as int,
        ) <= u64::MAX
    }

    /// Starts with a manifest whose offsets are yet to be computed.
    pub fn new(manifest: PbinManifest, launcher_len: usize) -> (f: Self)
        ensures
            f.consistent(),
            f.manifest() == manifest,
            f.launcher_len() == launcher_len,
            f.settled() is None,
            f.rounds() == 0,
    {
        OffsetFixup { manifest, launcher_len, settled: None, rounds: 0 }
    }

    /// The manifest as it stands, to be serialised.
    pub fn current(&self) -> (m: &PbinManifest)
        ensures
            *m == self.manifest(),
    {
        &self.manifest
    }

    /// Takes the length of the manifest as it was serialised last. If the
    /// offsets were computed for that length they stand, and the search is
    /// done. Else they are computed for it, and the manifest is to be
    /// serialised again; but after `MAX_FIXUP_ROUNDS` rounds the search is
    /// given up, and a file too long for its offsets is refused, both as
    /// invalid data, with the offsets left as they were.
    pub fn step(&mut self, serialized_len: usize) -> (r: Result<FixupStep, Error>)
        requires
            old(self).consistent(),
        ensures
            final(self).consistent(),
            final(self).launcher_len() == old(self).launcher_len(),
            final(self).manifest().name == old(self).manifest().name,
            final(self).manifest().version == old(self).manifest().version,
            final(self).manifest().dictionary_size == old(self).manifest().dictionary_size,
            same_but_offsets(old(self).manifest().entries@, final(self).manifest().entries@),
            match r {
                Ok(FixupStep::Done) => old(self).settled() == Some(serialized_len) && final(self).settled() == Some(serialized_len)
                    && final(self).rounds() == old(self).rounds()
                    && final(self).manifest().entries@ == old(self).manifest().entries@,
                Ok(FixupStep::Serialize) => old(self).settled() != Some(serialized_len)
                    && old(self).rounds() < MAX_FIXUP_ROUNDS && old(self).fits(serialized_len)
                    && final(self).settled() == Some(serialized_len) && final(self).rounds()
                    == old(self).rounds() + 1,
                Err(Error::Compression(CompressionError::InvalidData(_))) => old(self).settled()
                    != Some(serialized_len) && (old(self).rounds() >= MAX_FIXUP_ROUNDS || !old(self).fits(serialized_len))
                    && final(self).rounds() == old(self).rounds()
                    && final(self).manifest().entries@ == old(self).manifest().entries@,
                Err(_) => false,
            },
            r is Ok ==> laid_out(
                final(self).manifest().entries@,
                payloads_start(
                    old(self).launcher_len() as nat,
                    serialized_len as nat,
                    old(self).manifest().dictionary_size as nat,
                ),
            ),
    {
        let same = match self.settled {
            Some(len) => len == serialized_len,
            None => false,
        };
        if same {
            return Ok(FixupStep::Done);
        }
        if self.rounds >= MAX_FIXUP_ROUNDS {
            return Err(inconsistent("The offsets of the manifest do not settle"));
        }
        let ghost before = self.manifest.entries@;
        let was = self.settled;
        self.settled = None;
        match place_payloads(&mut self.manifest, self.launcher_len, serialized_len) {
            Ok(_) => {
                proof {
                    lemma_offset_at_same(
                        before,
                        self.manifest.entries@,
                        payloads_start(
                            self.launcher_len as nat,
                            serialized_len as nat,
                            self.manifest.dictionary_size as nat,
                        ),
                        before.len() as int,
                    );
                }
                self.settled = Some(serialized_len);
                self.rounds = self.rounds + 1;
                Ok(FixupStep::Serialize)
            },
            Err(e) => {
                assert(self.manifest.entries@ == before);
                self.settled = was;
                Err(e)
            },
        }
    }

    /// Hands the manifest back.
    pub fn finish(self) -> (m: PbinManifest)
        ensures
            m == self.manifest(),
    {
        self.manifest
    }
}

// ---------------------------------------------------------------------------
// Writing
// ---------------------------------------------------------------------------

/// The first `n` payloads one after the other.
pub open spec fn concat(parts: Seq<Vec<u8>>, n: int) -> Seq<u8>
    decreases n,
{
    if n <= 0 {
        Seq::empty()
    } else {
        concat(parts, n - 1) + parts[n - 1]@
    }
}

/// The header of a container with `entry_count` payloads of kind
/// `compression` and a manifest of `manifest_size` bytes.
pub open spec fn header_for(compression: Compression, entry_count: u8, manifest_size: u32) -> PbinHeader {
    PbinHeader {
        magic: PBIN_MAGIC,
        version: PBIN_VERSION,
        compression,
        entry_count,
        manifest_size,
        flags: 0,
    }
}

/// Whether a container can be written from these parts: there are as many
/// payloads as entries, 255 at most, the manifest has a length that a header
/// can hold, the dictionary and each payload have the length that the
/// manifest says, and the offsets of the manifest are those of the file.
pub open spec fn writable(
    launcher_len: nat,
    manifest: PbinManifest,
    manifest_len: nat,
    dictionary_len: nat,
    payloads: Seq<Vec<u8>>,
) -> bool {
    &&& manifest.entries@.len() == payloads.len()
    &&& payloads.len() <= 255
    &&& manifest_len <= u32::MAX
    &&& manifest.dictionary_size == dictionary_len
    &&& forall|i: int|
        0 <= i < payloads.len() ==> (#[trigger] manifest.entries@[i]).compressed_size
            == payloads[i]@.len()
    &&& laid_out(manifest.entries@, payloads_start(launcher_len, manifest_len, dictionary_len))
}

/// The bytes of a container: launcher, header, manifest, dictionary,
/// payloads.
pub open spec fn container_bytes(
    launcher: Seq<u8>,
    compression: Compression,
    manifest_json: Seq<u8>,
    dictionary: Seq<u8>,
    payloads: Seq<Vec<u8>>,
) -> Seq<u8> {
    launcher + header_bytes(
        header_for(compression, payloads.len() as u8, manifest_json.len() as u32),
    ) + manifest_json + dictionary + concat(payloads, payloads.len() as int)
}

fn append_bytes(file: &mut Vec<u8>, part: &[u8])
    ensures
        final(file)@ == old(file)@ + part@,
{
    let mut i: usize = 0;
    let ghost before = file@;
    while i < part.len()
        invariant
            i <= part@.len(),
            file@ == before + part@.subrange(0, i as int),
        decreases part@.len() - i,
    {
        file.push(part[i]);
        assert(file@ =~= before + part@.subrange(0, i + 1));
        i += 1;
    }
    assert(part@.subrange(0, i as int) =~= part@);
}

/// Checks that the parts of a container fit together.
fn check_parts(
    launcher_len: usize,
    manifest: &PbinManifest,
    manifest_len: usize,
    dictionary_len: usize,
    payloads: &Vec<Vec<u8>>,
) -> (ok: bool)
    ensures
        ok == writable(
            launcher_len as nat,
            *manifest,
            manifest_len as nat,
            dictionary_len as nat,
            payloads@,
        ),
{
    let n = payloads.len();
    if manifest.entries.len() != n || n > 255 || manifest_len as u64 > u32::MAX as u64
        || manifest.dictionary_size != dictionary_len as u64 {
        return false;
    }
    let wide = launcher_len as u128 + 64 + manifest_len as u128 + dictionary_len as u128;
    let ghost start = payloads_start(launcher_len as nat, manifest_len as nat, dictionary_len as nat);
    let mut at: u128 = wide;
    let mut i: usize = 0;
    while i < n
        invariant
            i <= n,
            n == payloads@.len(),
            n == manifest.entries@.len(),
            n <= 255,
            start == wide,
            start == payloads_start(
                launcher_len as nat,
                manifest_len as nat,
                dictionary_len as nat,
            ),
            manifest_len <= u32::MAX,
            manifest.dictionary_size == dictionary_len,
            at == offset_at(manifest.entries@, start, i as int),
            at <= wide + i * 0xFFFF_FFFF_FFFF_FFFF,
            forall|k: int|
                0 <= k < i ==> (#[trigger] manifest.entries@[k]).compressed_size
                    == payloads@[k]@.len() && manifest.entries@[k].offset == offset_at(
                    manifest.entries@,
                    start,
                    k,
                ),
        decreases n - i,
    {
        let entry = &manifest.entries[i];
        if entry.compressed_size != payloads[i].len() as u64 || entry.offset as u128 != at {
            proof {
                if writable(
                    launcher_len as nat,
                    *manifest,
                    manifest_len as nat,
                    dictionary_len as nat,
                    payloads@,
                ) {
                    assert(manifest.entries@[i as int].compressed_size
                        == payloads@[i as int]@.len());
                    assert(laid_out(manifest.entries@, start));
                    assert(manifest.entries@[i as int].offset == offset_at(
                        manifest.entries@,
                        start,
                        i as int,
                    ));
                }
            }
            return false;
        }
        at += entry.compressed_size as u128;
        i += 1;
    }
    true
}

/// Writes a container: the launcher, the header, the manifest as it was
/// serialised, the dictionary and the payloads, in this order. Parts that do
/// not fit together are refused as invalid data.
pub fn write_container(
    launcher: &[u8],
    compression: Compression,
    manifest: &PbinManifest,
    manifest_json: &[u8],
    dictionary: &[u8],
    payloads: &Vec<Vec<u8>>,
) -> (r: Result<Vec<u8>, Error>)
    ensures
        match r {
            Ok(file) => writable(
                launcher@.len(),
                *manifest,
                manifest_json@.len(),
                dictionary@.len(),
                payloads@,
            ) && file@ == container_bytes(
                launcher@,
                compression,
                manifest_json@,
                dictionary@,
                payloads@,
            ),
            Err(Error::Compression(CompressionError::InvalidData(_))) => !writable(
                launcher@.len(),
                *manifest,
                manifest_json@.len(),
                dictionary@.len(),
                payloads@,
            ),
            Err(_) => false,
        },
{
    if !check_parts(launcher.len(), manifest, manifest_json.len(), dictionary.len(), payloads) {
        return Err(inconsistent("Parts of the container do not fit together"));
    }
    let header = PbinHeader::new(compression, payloads.len() as u8, manifest_json.len() as u32);
    assert(header.magic@ =~= PBIN_MAGIC@);
    assert(header_bytes(header) =~= header_bytes(
        header_for(compression, payloads@.len() as u8, manifest_json@.len() as u32),
    ));
    let mut file: Vec<u8> = Vec::new();
    append_bytes(&mut file, launcher);
    let header_bytes = header.to_bytes();
    append_bytes(&mut file, &header_bytes);
    append_bytes(&mut file, manifest_json);
    append_bytes(&mut file, dictionary);
    let ghost prefix = file@;
    assert(prefix =~= launcher@ + header_bytes@ + manifest_json@ + dictionary@);
    let mut i: usize = 0;
    while i < payloads.len()
        invariant
            i <= payloads@.len(),
            file@ == prefix + concat(payloads@, i as int),
        decreases payloads@.len() - i,
    {
        append_bytes(&mut file, payloads[i].as_slice());
        assert(file@ =~= prefix + concat(payloads@, i + 1));
        i += 1;
    }
    Ok(file)
}

// ---------------------------------------------------------------------------
// Reading
// ---------------------------------------------------------------------------

/// The `size` bytes at `offset` of `file`, if they lie within it.
pub open spec fn stored(file: Seq<u8>, offset: nat, size: nat) -> Option<Seq<u8>> {
    if offset + size <= file.len() {
        Some(file.subrange(offset as int, (offset + size) as int))
    } else {
        None
    }
}

/// Finds where the header starts: behind the last payload marker of the
/// file.
pub fn locate_header(file: &[u8]) -> (r: Result<usize, Error>)
    ensures
        match r {
            Ok(at) => 16 <= at <= file@.len() && last_marker_at(file@, at - 16),
            Err(Error::PayloadMarkerNotFound) => forall|at: int|
                !occurs_at(file@, PAYLOAD_MARKER@, at),
            Err(_) => false,
        },
{
    let len = file.len();
    match find_payload_marker(file) {
        Some(at) => {
            assert(PAYLOAD_MARKER@.len() == 16);
            assert(at + 16 <= len);
            Ok(at + 16)
        },
        None => Err(Error::PayloadMarkerNotFound),
    }
}

/// Reads the header of a container and checks that the manifest it
/// announces lies within the file. Returns where the header starts and the
/// header. Without a marker there is no header; what stands behind the last
/// marker is read as `PbinHeader::from_bytes` reads it; a manifest that ends
/// behind the file is invalid data.
pub fn read_header(file: &[u8]) -> (r: Result<(usize, PbinHeader), Error>)
    ensures
        match r {
            Ok((at, header)) => 16 <= at <= file@.len() && last_marker_at(file@, at - 16)
                && header_outcome(file@.subrange(at as int, file@.len() as int), Ok(header))
                && at + 64 + header.manifest_size <= file@.len(),
            Err(Error::PayloadMarkerNotFound) => forall|at: int|
                !occurs_at(file@, PAYLOAD_MARKER@, at),
            Err(Error::Compression(CompressionError::InvalidData(_))) => exists|at: int, h: PbinHeader|
                16 <= at <= file@.len() && last_marker_at(file@, at - 16)
                    && #[trigger] header_outcome(file@.subrange(at, file@.len() as int), Ok(h))
                    && at + 64 + h.manifest_size > file@.len(),
            Err(e) => exists|at: int|
                16 <= at <= file@.len() && last_marker_at(file@, at - 16)
                    && #[trigger] header_outcome(file@.subrange(at, file@.len() as int), Err(e)),
        },
{
    let at = match locate_header(file) {
        Ok(at) => at,
        Err(e) => {
            return Err(e);
        },
    };
    let rest = slice_subrange(file, at, file.len());
    match PbinHeader::from_bytes(rest) {
        Ok(header) => {
            if header.manifest_size as u64 <= (rest.len() - 64) as u64 {
                Ok((at, header))
            } else {
                Err(inconsistent("Manifest lies outside of the file"))
            }
        },
        Err(e) => Err(e),
    }
}

/// The bytes of the manifest of a container whose header starts at `at`.
pub fn manifest_bytes<'a>(file: &'a [u8], at: usize, header: &PbinHeader) -> (r: Option<&'a [u8]>)
    ensures
        match r {
            Some(bytes) => stored(file@, (at + 64) as nat, header.manifest_size as nat) == Some(
                bytes@,
            ),
            None => stored(file@, (at + 64) as nat, header.manifest_size as nat) is None,
        },
{
    if at as u128 + 64 + header.manifest_size as u128 <= file.len() as u128 {
        Some(slice_subrange(file, at + 64, at + 64 + header.manifest_size as usize))
    } else {
        None
    }
}

// ---------------------------------------------------------------------------
// Unpacking
// ---------------------------------------------------------------------------

/// What a stored payload unpacks to with the codec of the container and the
/// dictionary `dict`, if it unpacks to no more than `limit` bytes.
pub open spec fn unpacked(compression: Compression, blob: Seq<u8>, dict: Seq<u8>, limit: nat) -> Option<
    Seq<u8>,
> {
    match compression {
        Compression::Uncompressed => if blob.len() <= limit {
            Some(blob)
        } else {
            None
        },
        Compression::Zstd => match zstd_decoded(blob, dict) {
            Some(data) => if data.len() <= limit && data.len() <= MAX_OUTPUT_SIZE {
                Some(data)
            } else {
                None
            },
            None => None,
        },
        Compression::Lz4 => None,
    }
}

/// The dictionary of a container whose header starts at `at`: what stands
/// behind the manifest, as long as the manifest says.
pub open spec fn dictionary_of(file: Seq<u8>, at: nat, header: PbinHeader, manifest: PbinManifest) -> Option<
    Seq<u8>,
> {
    stored(file, at + 64 + header.manifest_size as nat, manifest.dictionary_size as nat)
}

/// The bytes that entry `i` stands for before the branch filter is undone:
/// its payload unpacked, or, for a patch, the patch applied to the unpacked
/// payload of the entry that it names, which has to be no patch itself.
pub open spec fn filtered_payload(
    file: Seq<u8>,
    compression: Compression,
    dict: Seq<u8>,
    entries: Seq<PbinEntry>,
    i: int,
) -> Option<Seq<u8>> {
    let entry = entries[i];
    match stored(file, entry.offset as nat, entry.compressed_size as nat) {
        None => None,
        Some(blob) => match entry.delta_reference {
            None => unpacked(compression, blob, dict, entry.uncompressed_size as nat),
            Some(name) => match entry_named(entries, name@, 0) {
                None => None,
                Some(r) => if entries[r].delta_reference is Some {
                    None
                } else {
                    match stored(
                        file,
                        entries[r].offset as nat,
                        entries[r].compressed_size as nat,
                    ) {
                        None => None,
                        Some(base_blob) => match unpacked(
                            compression,
                            base_blob,
                            dict,
                            entries[r].uncompressed_size as nat,
                        ) {
                            None => None,
                            Some(base) => match unpacked(
                                compression,
                                blob,
                                dict,
                                entry.patch_size as nat,
                            ) {
                                None => None,
                                Some(patch) => patch_applied(base, patch),
                            },
                        },
                    }
                },
            },
        },
    }
}

/// `data` with the branch filter of the entry undone, if the entry says that
/// one was applied.
pub open spec fn unfiltered(entry: PbinEntry, data: Seq<u8>) -> Seq<u8> {
    if entry.bcj_filtered {
        bcj_transformed(arch_of_name(encode_utf8(entry.target@)), false, data, 0)
    } else {
        data
    }
}

/// The binary that entry `i` of a container stands for, if the container
/// holds what the manifest says.
pub open spec fn restored(
    file: Seq<u8>,
    at: nat,
    header: PbinHeader,
    manifest: PbinManifest,
    i: int,
) -> Option<Seq<u8>> {
    match dictionary_of(file, at, header, manifest) {
        None => None,
        Some(dict) => match filtered_payload(
            file,
            header.compression,
            dict,
            manifest.entries@,
            i,
        ) {
            None => None,
            Some(data) => Some(unfiltered(manifest.entries@[i], data)),
        },
    }
}

/// Whether `bytes` has the length and the BLAKE3 digest that `entry` says.
pub open spec fn verified(entry: PbinEntry, bytes: Seq<u8>) -> bool {
    &&& bytes.len() == entry.uncompressed_size
    &&& is_hex_checksum(encode_utf8(entry.checksum@))
    &&& checksum_of_hex(encode_utf8(entry.checksum@)) == blake3_digest(bytes)
}

/// Whether the container holds what unpacking entry `i` reads: the header
/// counts the entries of the manifest, the dictionary and the payload lie
/// within the file, and so does the payload of the reference if the entry is
/// a patch, which has to name an entry that is no patch itself.
pub open spec fn placed(
    file: Seq<u8>,
    at: nat,
    header: PbinHeader,
    manifest: PbinManifest,
    i: int,
) -> bool {
    let entries = manifest.entries@;
    &&& header.entry_count == entries.len()
    &&& dictionary_of(file, at, header, manifest) is Some
    &&& stored(file, entries[i].offset as nat, entries[i].compressed_size as nat) is Some
    &&& match entries[i].delta_reference {
        None => true,
        Some(name) => match entry_named(entries, name@, 0) {
            None => false,
            Some(r) => entries[r].delta_reference is None && stored(
                file,
                entries[r].offset as nat,
                entries[r].compressed_size as nat,
            ) is Some,
        },
    }
}

/// Whether entry `i` is a patch whose reference and whose patch unpack but
/// which cannot be applied to the reference.
pub open spec fn patch_fails(
    file: Seq<u8>,
    compression: Compression,
    dict: Seq<u8>,
    entries: Seq<PbinEntry>,
    i: int,
) -> bool {
    match entries[i].delta_reference {
        None => false,
        Some(name) => match entry_named(entries, name@, 0) {
            None => false,
            Some(r) => match (
                stored(file, entries[r].offset as nat, entries[r].compressed_size as nat),
                stored(file, entries[i].offset as nat, entries[i].compressed_size as nat),
            ) {
                (Some(base_blob), Some(blob)) => match (
                    unpacked(compression, base_blob, dict, entries[r].uncompressed_size as nat),
                    unpacked(compression, blob, dict, entries[i].patch_size as nat),
                ) {
                    (Some(base), Some(patch)) => patch_applied(base, patch) is None,
                    _ => false,
                },
                _ => false,
            },
        },
    }
}

fn region_at(file: &[u8], offset: u128, size: u64) -> (r: Option<&[u8]>)
    ensures
        match r {
            Some(bytes) => stored(file@, offset as nat, size as nat) == Some(bytes@),
            None => stored(file@, offset as nat, size as nat) is None,
        },
{
    if offset <= file.len() as u128 && size as u128 <= file.len() as u128 - offset {
        Some(slice_subrange(file, offset as usize, offset as usize + size as usize))
    } else {
        None
    }
}

/// Unpacks a stored payload into at most `limit` bytes: gives what it
/// unpacks to, and an error exactly where it unpacks to nothing. A stored
/// payload that is longer than `limit`, and an LZ4 payload, are decompression
/// errors; what zstd refuses is the error that it gives.
fn unpack(compression: Compression, blob: &[u8], dict: &[u8], limit: u64) -> (r: Result<
    Vec<u8>,
    Error,
>)
    ensures
        match r {
            Ok(data) => unpacked(compression, blob@, dict@, limit as nat) == Some(data@),
            Err(Error::Compression(CompressionError::Decompression(_))) => unpacked(
                compression,
                blob@,
                dict@,
                limit as nat,
            ) is None,
            Err(Error::Compression(CompressionError::Zstd(_))) => compression
                == Compression::Zstd && unpacked(compression, blob@, dict@, limit as nat)
                is None,
            Err(_) => false,
        },
{
    match compression {
        Compression::Uncompressed => {
            if blob.len() as u64 <= limit {
                Ok(slice_to_vec(blob))
            } else {
                Err(
                    Error::Compression(
                        CompressionError::Decompression(
                            "Payload is longer than the manifest says".to_owned(),
                        ),
                    ),
                )
            }
        },
        Compression::Zstd => {
            let capacity = if limit <= MAX_OUTPUT_SIZE as u64 {
                limit as usize
            } else {
                MAX_OUTPUT_SIZE
            };
            match decompress_bounded(blob, dict, capacity) {
                Ok(data) => Ok(data),
                Err(e) => Err(Error::Compression(e)),
            }
        },
        Compression::Lz4 => Err(
            Error::Compression(
                CompressionError::Decompression("LZ4 payloads cannot be unpacked".to_owned()),
            ),
        ),
    }
}

/// Whether `r` is what unpacking entry `i` may give.
pub open spec fn unpack_outcome(
    file: Seq<u8>,
    compression: Compression,
    dict: Seq<u8>,
    entries: Seq<PbinEntry>,
    i: int,
    r: Result<Vec<u8>, Error>,
) -> bool {
    match r {
        Ok(data) => filtered_payload(file, compression, dict, entries, i) == Some(data@),
        Err(Error::Compression(CompressionError::Decompression(_))) => filtered_payload(
            file,
            compression,
            dict,
            entries,
            i,
        ) is None,
        Err(Error::Compression(CompressionError::Zstd(_))) => compression == Compression::Zstd
            && filtered_payload(file, compression, dict, entries, i) is None,
        Err(Error::Compression(CompressionError::Delta(_))) => patch_fails(
            file,
            compression,
            dict,
            entries,
            i,
        ),
        Err(_) => false,
    }
}

/// Unpacks the payload of entry `i` and, for a patch, applies it to the
/// unpacked payload of its reference.
fn unpack_entry(
    file: &[u8],
    compression: Compression,
    dict: &[u8],
    manifest: &PbinManifest,
    i: usize,
) -> (r: Result<Vec<u8>, Error>)
    requires
        i < manifest.entries@.len(),
    ensures
        match manifest.entries@[i as int].delta_reference {
            None => stored(
                file@,
                manifest.entries@[i as int].offset as nat,
                manifest.entries@[i as int].compressed_size as nat,
            ) is Some,
            Some(name) => stored(
                file@,
                manifest.entries@[i as int].offset as nat,
                manifest.entries@[i as int].compressed_size as nat,
            ) is Some && (entry_named(manifest.entries@, name@, 0) matches Some(r)
                && manifest.entries@[r].delta_reference is None && stored(
                file@,
                manifest.entries@[r].offset as nat,
                manifest.entries@[r].compressed_size as nat,
            ) is Some),
        } <==> !(r matches Err(Error::Compression(CompressionError::InvalidData(_)))),
        !(r matches Err(Error::Compression(CompressionError::InvalidData(_))))
            ==> unpack_outcome(file@, compression, dict@, manifest.entries@, i as int, r),
{
    let entry = &manifest.entries[i];
    let blob = match region_at(file, entry.offset as u128, entry.compressed_size) {
        Some(blob) => blob,
        None => {
            return Err(inconsistent("Payload lies outside of the file"));
        },
    };
    match &entry.delta_reference {
        None => unpack(compression, blob, dict, entry.uncompressed_size),
        Some(name) => {
            let r = match manifest.position_of(name.as_str()) {
                Some(r) => r,
                None => {
                    return Err(inconsistent("Missing reference binary"));
                },
            };
            let base_entry = &manifest.entries[r];
            if base_entry.delta_reference.is_some() {
                return Err(inconsistent("Reference binary is a patch itself"));
            }
            let base_blob = match region_at(
                file,
                base_entry.offset as u128,
                base_entry.compressed_size,
            ) {
                Some(blob) => blob,
                None => {
                    return Err(inconsistent("Payload lies outside of the file"));
                },
            };
            let base = match unpack(compression, base_blob, dict, base_entry.uncompressed_size) {
                Ok(base) => base,
                Err(e) => {
                    return Err(e);
                },
            };
            let patch = match unpack(compression, blob, dict, entry.patch_size) {
                Ok(patch) => patch,
                Err(e) => {
                    return Err(e);
                },
            };
            match apply_patch(base.as_slice(), patch.as_slice()) {
                Ok(data) => Ok(data),
                Err(e) => Err(Error::Compression(e)),
            }
        },
    }
}

/// Whether `r` is what extracting the binary for the target `name` gives.
/// A target without an entry is not found. A container that does not hold
/// what the entry needs is invalid data. A payload that does not unpack is a
/// decompression error or, where zstd cannot be set up with the dictionary,
/// a zstd error; a patch that cannot be applied is a delta error; a binary
/// that differs from what the manifest says is a checksum mismatch; and what
/// is left is the binary, with the length and the checksum of its entry. So
/// a container that holds a binary for the target, as its entry describes
/// it, gives that binary.
pub open spec fn extract_outcome(
    file: Seq<u8>,
    at: nat,
    header: PbinHeader,
    manifest: PbinManifest,
    name: Seq<char>,
    r: Result<Vec<u8>, Error>,
) -> bool {
    match entry_named(manifest.entries@, name, 0) {
        None => r matches Err(Error::TargetNotFound(found)) && found@ == name,
        Some(i) => if !placed(file, at, header, manifest, i) {
            r matches Err(Error::Compression(CompressionError::InvalidData(_)))
        } else {
            match r {
                Ok(bytes) => restored(file, at, header, manifest, i) == Some(bytes@) && verified(
                    manifest.entries@[i],
                    bytes@,
                ),
                Err(Error::ChecksumMismatch { expected, actual }) => restored(
                    file,
                    at,
                    header,
                    manifest,
                    i,
                ) matches Some(bytes) && !verified(manifest.entries@[i], bytes),
                Err(Error::Compression(CompressionError::Decompression(_))) => restored(
                    file,
                    at,
                    header,
                    manifest,
                    i,
                ) is None,
                Err(Error::Compression(CompressionError::Zstd(_))) => header.compression
                    == Compression::Zstd && restored(file, at, header, manifest, i) is None,
                Err(Error::Compression(CompressionError::Delta(_))) => patch_fails(
                    file,
                    header.compression,
                    dictionary_of(file, at, header, manifest)->0,
                    manifest.entries@,
                    i,
                ),
                Err(_) => false,
            }
        },
    }
}

/// Extracts the binary for `target` from a container whose header starts at
/// `at`: finds the entry, unpacks its payload with the dictionary of the
/// container, applies it as a patch to its reference if it is one, undoes
/// the branch filter, and checks length and checksum.
pub fn extract(
    file: &[u8],
    at: usize,
    header: &PbinHeader,
    manifest: &PbinManifest,
    target: Target,
) -> (r: Result<Vec<u8>, Error>)
    ensures
        extract_outcome(file@, at as nat, *header, *manifest, target.name(), r),
{
    let i = match manifest.position_of(target.as_str()) {
        Some(i) => i,
        None => {
            return Err(Error::TargetNotFound(target.as_str().to_owned()));
        },
    };
    if header.entry_count as usize != manifest.entries.len() {
        return Err(inconsistent("Header and manifest differ in the number of entries"));
    }
    let dict = match region_at(
        file,
        at as u128 + 64 + header.manifest_size as u128,
        manifest.dictionary_size,
    ) {
        Some(dict) => dict,
        None => {
            return Err(inconsistent("Dictionary lies outside of the file"));
        },
    };
    let mut data = match unpack_entry(file, header.compression, dict, manifest, i) {
        Ok(data) => data,
        Err(e) => {
            return Err(e);
        },
    };
    let entry = &manifest.entries[i];
    if entry.bcj_filtered {
        let arch = BcjArch::from_target(entry.target.as_str());
        let _ = bcj_decode(data.as_mut_slice(), arch);
    }
    let right_length = data.len() as u64 == entry.uncompressed_size;
    match entry.verify_checksum(data.as_slice()) {
        Ok(same) => {
            if same && right_length {
                Ok(data)
            } else {
                let digest = blake3_hash(data.as_slice());
                Err(
                    Error::ChecksumMismatch {
                        expected: entry.checksum.clone(),
                        actual: hex_encode(&digest),
                    },
                )
            }
        },
        Err(e) => Err(e),
    }
}

// ---------------------------------------------------------------------------
// From the pipeline to the manifest
// ---------------------------------------------------------------------------

/// The name that an entry gives for its reference.
pub open spec fn reference_name(reference: Option<String>) -> Option<Seq<char>> {
    match reference {
        Some(name) => Some(name@),
        None => None,
    }
}

/// Whether `manifest` describes what the pipeline made of `binaries`: an
/// entry for each payload, in order, with its sizes, the checksum of the
/// binary as it was before the pipeline, and what is needed to unpack it.
pub open spec fn describes(
    manifest: PbinManifest,
    binaries: Seq<(String, Vec<u8>)>,
    result: CompressionResult,
) -> bool {
    &&& manifest.entries@.len() == binaries.len()
    &&& result.entries@.len() == binaries.len()
    &&& manifest.dictionary_size == dictionary_bytes(result.dictionary).len()
    &&& forall|i: int|
        0 <= i < binaries.len() ==> {
            &&& (#[trigger] manifest.entries@[i]).target@ == result.entries@[i].target@
            &&& manifest.entries@[i].compressed_size == result.entries@[i].data@.len()
            &&& manifest.entries@[i].uncompressed_size == binaries[i].1@.len()
            &&& blake3_digest(binaries[i].1@).len() == 32
            &&& manifest.entries@[i].checksum@ == hex_text(blake3_digest(binaries[i].1@))
            &&& reference_name(manifest.entries@[i].delta_reference) == reference_name(
                result.entries@[i].delta_reference,
            )
            &&& manifest.entries@[i].patch_size == result.entries@[i].patch_size
            &&& manifest.entries@[i].bcj_filtered == result.entries@[i].bcj_filtered
        }
}

/// Makes the manifest for what the pipeline made of `binaries`, with offsets
/// yet to be computed. The binaries have to be as many as the entries of the
/// result, and every target one that exists.
pub fn describe(
    name: String,
    version: String,
    binaries: &Vec<(String, Vec<u8>)>,
    result: &CompressionResult,
) -> (r: Result<PbinManifest, Error>)
    ensures
        match r {
            Ok(manifest) => manifest.name == name && manifest.version == version && describes(
                manifest,
                binaries@,
                *result,
            ) && forall|i: int|
                0 <= i < manifest.entries@.len() ==> Target::named(
                    (#[trigger] manifest.entries@[i]).target@,
                ) is Some && manifest.entries@[i].offset == 0,
            Err(Error::InvalidTarget(found)) => binaries@.len() == result.entries@.len()
                && exists|i: int|
                0 <= i < result.entries@.len() && Target::named(
                    (#[trigger] result.entries@[i]).target@,
                ) is None && found@ == result.entries@[i].target@,
            Err(Error::Compression(CompressionError::InvalidData(_))) => binaries@.len()
                != result.entries@.len(),
            Err(_) => false,
        },
{
    let n = binaries.len();
    if result.entries.len() != n {
        return Err(inconsistent("Binaries and payloads differ in number"));
    }
    let dictionary_size: u64 = match &result.dictionary {
        Some(d) => d.len() as u64,
        None => 0,
    };
    let mut manifest = PbinManifest { name, version, entries: Vec::new(), dictionary_size };
    let mut i: usize = 0;
    while i < n
        invariant
            i <= n,
            n == binaries@.len(),
            n == result.entries@.len(),
            manifest.name == name,
            manifest.version == version,
            manifest.dictionary_size == dictionary_bytes(result.dictionary).len(),
            manifest.entries@.len() == i,
            forall|k: int|
                0 <= k < i ==> {
                    &&& (#[trigger] manifest.entries@[k]).target@ == result.entries@[k].target@
                    &&& manifest.entries@[k].compressed_size == result.entries@[k].data@.len()
                    &&& manifest.entries@[k].uncompressed_size == binaries@[k].1@.len()
                    &&& blake3_digest(binaries@[k].1@).len() == 32
                    &&& manifest.entries@[k].checksum@ == hex_text(
                        blake3_digest(binaries@[k].1@),
                    )
                    &&& reference_name(manifest.entries@[k].delta_reference) == reference_name(
                        result.entries@[k].delta_reference,
                    )
                    &&& manifest.entries@[k].patch_size == result.entries@[k].patch_size
                    &&& manifest.entries@[k].bcj_filtered == result.entries@[k].bcj_filtered
                    &&& Target::named(manifest.entries@[k].target@) is Some
                    &&& manifest.entries@[k].offset == 0
                },
        decreases n - i,
    {
        let made = &result.entries[i];
        if Target::from_str(made.target.as_str()).is_none() {
            return Err(Error::InvalidTarget(made.target.clone()));
        }
        let digest = blake3_hash(binaries[i].1.as_slice());
        let entry = PbinEntry {
            target: made.target.clone(),
            offset: 0,
            compressed_size: made.data.len() as u64,
            uncompressed_size: binaries[i].1.len() as u64,
            checksum: hex_encode(&digest),
            delta_reference: match &made.delta_reference {
                Some(name) => Some(name.clone()),
                None => None,
            },
            patch_size: made.patch_size as u64,
            bcj_filtered: made.bcj_filtered,
        };
        manifest.entries.push(entry);
        i += 1;
    }
    Ok(manifest)
}

/// Makes the manifest of a container that stores binaries as they are, with
/// offsets yet to be computed.
pub fn describe_stored(name: String, version: String, binaries: &Vec<(Target, Vec<u8>)>) -> (manifest:
    PbinManifest)
    ensures
        manifest.name == name,
        manifest.version == version,
        manifest.dictionary_size == 0,
        manifest.entries@.len() == binaries@.len(),
        forall|i: int|
            0 <= i < binaries@.len() ==> {
                &&& (#[trigger] manifest.entries@[i]).target@ == binaries@[i].0.name()
                &&& manifest.entries@[i].offset == 0
                &&& manifest.entries@[i].compressed_size == binaries@[i].1@.len()
                &&& manifest.entries@[i].uncompressed_size == binaries@[i].1@.len()
                &&& manifest.entries@[i].checksum@ == hex_text(blake3_digest(binaries@[i].1@))
                &&& manifest.entries@[i].delta_reference is None
                &&& manifest.entries@[i].patch_size == 0
                &&& !manifest.entries@[i].bcj_filtered
            },
{
    let mut manifest = PbinManifest::new(name, version);
    let mut i: usize = 0;
    while i < binaries.len()
        invariant
            i <= binaries@.len(),
            manifest.name == name,
            manifest.version == version,
            manifest.dictionary_size == 0,
            manifest.entries@.len() == i,
            forall|k: int|
                0 <= k < i ==> {
                    &&& (#[trigger] manifest.entries@[k]).target@ == binaries@[k].0.name()
                    &&& manifest.entries@[k].offset == 0
                    &&& manifest.entries@[k].compressed_size == binaries@[k].1@.len()
                    &&& manifest.entries@[k].uncompressed_size == binaries@[k].1@.len()
                    &&& manifest.entries@[k].checksum@ == hex_text(
                        blake3_digest(binaries@[k].1@),
                    )
                    &&& manifest.entries@[k].delta_reference is None
                    &&& manifest.entries@[k].patch_size == 0
                    &&& !manifest.entries@[k].bcj_filtered
                },
        decreases binaries@.len() - i,
    {
        let size = binaries[i].1.len() as u64;
        let digest = blake3_hash(binaries[i].1.as_slice());
        manifest.add_entry(PbinEntry::new(binaries[i].0, 0, size, size, digest));
        i += 1;
    }
    manifest
}

// ---------------------------------------------------------------------------
// What is written is what is read
// ---------------------------------------------------------------------------

proof fn lemma_concat_len(parts: Seq<Vec<u8>>, entries: Seq<PbinEntry>, start: nat, n: int)
    requires
        0 <= n <= parts.len(),
        parts.len() == entries.len(),
        forall|k: int|
            0 <= k < parts.len() ==> (#[trigger] entries[k]).compressed_size == parts[k]@.len(),
    ensures
        offset_at(entries, start, n) == start + concat(parts, n).len(),
    decreases n,
{
    if n > 0 {
        lemma_concat_len(parts, entries, start, n - 1);
    }
}

proof fn lemma_concat_part(parts: Seq<Vec<u8>>, i: int, n: int)
    requires
        0 <= i < n <= parts.len(),
    ensures
        concat(parts, i).len() + parts[i]@.len() <= concat(parts, n).len(),
        concat(parts, n).subrange(
            concat(parts, i).len() as int,
            (concat(parts, i).len() + parts[i]@.len()) as int,
        ) == parts[i]@,
    decreases n,
{
    let before = concat(parts, i).len() as int;
    if i == n - 1 {
        assert(concat(parts, n).subrange(before, before + parts[i]@.len()) =~= parts[i]@);
    } else {
        lemma_concat_part(parts, i, n - 1);
        assert(concat(parts, n).subrange(before, before + parts[i]@.len()) =~= concat(
            parts,
            n - 1,
        ).subrange(before, before + parts[i]@.len()));
    }
}

/// In a container that was written from parts that fit together, each part
/// stands where the manifest says: the header behind the launcher, the
/// manifest behind the header, the dictionary behind the manifest, and each
/// payload at its offset. The file ends where the last payload ends.
pub proof fn lemma_container_regions(
    launcher: Seq<u8>,
    compression: Compression,
    manifest: PbinManifest,
    manifest_json: Seq<u8>,
    dictionary: Seq<u8>,
    payloads: Seq<Vec<u8>>,
)
    requires
        writable(launcher.len(), manifest, manifest_json.len(), dictionary.len(), payloads),
    ensures
        container_bytes(launcher, compression, manifest_json, dictionary, payloads).len()
            == offset_at(
            manifest.entries@,
            payloads_start(launcher.len(), manifest_json.len(), dictionary.len()),
            payloads.len() as int,
        ),
        container_bytes(launcher, compression, manifest_json, dictionary, payloads).subrange(
            0,
            launcher.len() as int,
        ) == launcher,
        stored(
            container_bytes(launcher, compression, manifest_json, dictionary, payloads),
            launcher.len(),
            64,
        ) == Some(
            header_bytes(
                header_for(compression, payloads.len() as u8, manifest_json.len() as u32),
            ),
        ),
        stored(
            container_bytes(launcher, compression, manifest_json, dictionary, payloads),
            launcher.len() + 64,
            manifest_json.len(),
        ) == Some(manifest_json),
        stored(
            container_bytes(launcher, compression, manifest_json, dictionary, payloads),
            launcher.len() + 64 + manifest_json.len(),
            dictionary.len(),
        ) == Some(dictionary),
        forall|i: int|
            0 <= i < payloads.len() ==> stored(
                container_bytes(launcher, compression, manifest_json, dictionary, payloads),
                (#[trigger] manifest.entries@[i]).offset as nat,
                manifest.entries@[i].compressed_size as nat,
            ) == Some(payloads[i]@),
{
    let file = container_bytes(launcher, compression, manifest_json, dictionary, payloads);
    let head = header_bytes(
        header_for(compression, payloads.len() as u8, manifest_json.len() as u32),
    );
    let start = payloads_start(launcher.len(), manifest_json.len(), dictionary.len());
    let n = payloads.len() as int;
    let all = concat(payloads, n);
    assert(head.len() == 64);
    lemma_concat_len(payloads, manifest.entries@, start, n);
    let l = launcher.len() as int;
    let m = manifest_json.len() as int;
    let d = dictionary.len() as int;
    assert(file.subrange(0, l) =~= launcher);
    assert(file.subrange(l, l + 64) =~= head);
    assert(file.subrange(l + 64, l + 64 + m) =~= manifest_json);
    assert(file.subrange(l + 64 + m, l + 64 + m + d) =~= dictionary);
    assert forall|i: int| 0 <= i < payloads.len() implies stored(
        file,
        (#[trigger] manifest.entries@[i]).offset as nat,
        manifest.entries@[i].compressed_size as nat,
    ) == Some(payloads[i]@) by {
        lemma_concat_len(payloads, manifest.entries@, start, i);
        lemma_concat_part(payloads, i, n);
        let before = concat(payloads, i).len() as int;
        assert(manifest.entries@[i].offset == start + before);
        assert(file.subrange(start + before, start + before + payloads[i]@.len()) =~= all.subrange(
            before,
            before + payloads[i]@.len(),
        ));
    }
}

proof fn lemma_unique_name(entries: Seq<PbinEntry>, i: int)
    requires
        0 <= i < entries.len(),
        forall|a: int, b: int|
            0 <= a < b < entries.len() ==> (#[trigger] entries[a]).target@ != (
            #[trigger] entries[b]).target@,
    ensures
        entry_named(entries, entries[i].target@, 0) == Some(i),
{
    lemma_entry_named(entries, entries[i].target@, 0);
    match entry_named(entries, entries[i].target@, 0) {
        Some(k) => {
            if k < i {
                assert(entries[k].target@ != entries[i].target@);
            }
        },
        None => {
            assert(entries[i].target@ != entries[i].target@);
        },
    }
}

/// A container that is written from what the pipeline made of a batch of
/// binaries with distinct targets holds each of them: the entry for a target
/// is found, its payload unpacks to the binary as it went into the pipeline,
/// everything that unpacking reads is in place, and the binary has the
/// length and the checksum that the entry says.
pub proof fn lemma_container_round_trip(
    use_bcj: bool,
    use_dict: bool,
    t: Threshold,
    binaries: Seq<(String, Vec<u8>)>,
    result: CompressionResult,
    manifest: PbinManifest,
    launcher: Seq<u8>,
    manifest_json: Seq<u8>,
    payloads: Seq<Vec<u8>>,
    i: int,
)
    requires
        compressed(use_bcj, use_dict, t, binaries, result),
        describes(manifest, binaries, result),
        forall|a: int, b: int|
            0 <= a < b < binaries.len() ==> (#[trigger] binaries[a]).0@ != (
            #[trigger] binaries[b]).0@,
        payloads.len() == binaries.len(),
        forall|k: int|
            0 <= k < payloads.len() ==> (#[trigger] payloads[k])@ == result.entries@[k].data@,
        writable(
            launcher.len(),
            manifest,
            manifest_json.len(),
            dictionary_bytes(result.dictionary).len(),
            payloads,
        ),
        0 <= i < binaries.len(),
    ensures
        entry_named(manifest.entries@, binaries[i].0@, 0) == Some(i),
        restored(
            container_bytes(
                launcher,
                Compression::Zstd,
                manifest_json,
                dictionary_bytes(result.dictionary),
                payloads,
            ),
            launcher.len(),
            header_for(Compression::Zstd, payloads.len() as u8, manifest_json.len() as u32),
            manifest,
            i,
        ) == Some(binaries[i].1@),
        verified(manifest.entries@[i], binaries[i].1@),
        placed(
            container_bytes(
                launcher,
                Compression::Zstd,
                manifest_json,
                dictionary_bytes(result.dictionary),
                payloads,
            ),
            launcher.len(),
            header_for(Compression::Zstd, payloads.len() as u8, manifest_json.len() as u32),
            manifest,
            i,
        ),
{
    let dict = dictionary_bytes(result.dictionary);
    let file = container_bytes(launcher, Compression::Zstd, manifest_json, dict, payloads);
    let header = header_for(Compression::Zstd, payloads.len() as u8, manifest_json.len() as u32);
    let entries = manifest.entries@;
    let inputs = filtered_inputs(use_bcj, binaries);
    let n = binaries.len() as int;
    lemma_container_regions(launcher, Compression::Zstd, manifest, manifest_json, dict, payloads);
    assert forall|k: int| 0 <= k < n implies (#[trigger] entries[k]).target@ == binaries[k].0@ by {
        assert(entry_holds(inputs, t, dict, k, result.entries@[k]));
    }
    assert forall|a: int, b: int| 0 <= a < b < entries.len() implies (#[trigger] entries[a]).target@
        != (#[trigger] entries[b]).target@ by {
        assert(binaries[a].0@ != binaries[b].0@);
    }
    lemma_unique_name(entries, i);
    let entry = entries[i];
    let made = result.entries@[i];
    assert(entry_holds(inputs, t, dict, i, made));
    let name = binaries[i].0@;
    let data = binaries[i].1@;
    let arch = arch_of_name(encode_utf8(name));
    let packed = filtered_data(use_bcj, name, data);
    assert(inputs[i] == (name, packed));
    if use_bcj {
        lemma_bcj_keeps_length(arch, true, data, 0);
        lemma_bcj_round_trip(arch, data, 0);
    }
    assert(packed.len() == data.len());
    assert(dictionary_of(file, launcher.len(), header, manifest) == Some(dict));
    assert(stored(file, entry.offset as nat, entry.compressed_size as nat) == Some(made.data@));
    match made.delta_reference {
        None => {
            assert(entry.delta_reference is None);
            assert(unpacked(Compression::Zstd, made.data@, dict, entry.uncompressed_size as nat)
                == Some(packed));
        },
        Some(reference) => {
            let r = owner(inputs, t, i);
            lemma_owner(inputs, t, i);
            assert(entry.delta_reference is Some);
            assert(entry.delta_reference->0@ == reference@);
            assert(reference@ == inputs[r].0);
            assert(inputs[r].0 == binaries[r].0@);
            lemma_unique_name(entries, r);
            assert(entry_named(entries, reference@, 0) == Some(r));
            let base_made = result.entries@[r];
            assert(entry_holds(inputs, t, dict, r, base_made));
            assert(base_made.delta_reference is None);
            assert(entries[r].delta_reference is None);
            let base = inputs[r].1;
            if use_bcj {
                lemma_bcj_keeps_length(
                    arch_of_name(encode_utf8(binaries[r].0@)),
                    true,
                    binaries[r].1@,
                    0,
                );
            }
            assert(stored(file, entries[r].offset as nat, entries[r].compressed_size as nat)
                == Some(base_made.data@));
            assert(unpacked(
                Compression::Zstd,
                base_made.data@,
                dict,
                entries[r].uncompressed_size as nat,
            ) == Some(base));
            let patch = zstd_decoded(made.data@, dict)->0;
            assert(unpacked(Compression::Zstd, made.data@, dict, entry.patch_size as nat) == Some(
                patch,
            ));
            assert(patch_applied(base, patch) == Some(packed));
        },
    }
    assert(filtered_payload(file, Compression::Zstd, dict, entries, i) == Some(packed));
    assert(entry.bcj_filtered == is_filtered(use_bcj, name));
    assert(unfiltered(entry, packed) == data);
    lemma_hex_round_trip(blake3_digest(data));
}

/// In a container that was written from parts that fit together, and in
/// which the payload marker stands last at the end of the launcher, the
/// header is found behind the launcher and reads as it was written: any
/// header that `read_header` returns has the compression kind, the entry
/// count and the manifest size of the container.
pub proof fn lemma_header_found(
    launcher: Seq<u8>,
    compression: Compression,
    manifest: PbinManifest,
    manifest_json: Seq<u8>,
    dictionary: Seq<u8>,
    payloads: Seq<Vec<u8>>,
    at: int,
    header: PbinHeader,
)
    requires
        writable(launcher.len(), manifest, manifest_json.len(), dictionary.len(), payloads),
        launcher.len() >= 16,
        last_marker_at(
            container_bytes(launcher, compression, manifest_json, dictionary, payloads),
            launcher.len() - 16,
        ),
        last_marker_at(
            container_bytes(launcher, compression, manifest_json, dictionary, payloads),
            at - 16,
        ),
        header_outcome(
            container_bytes(launcher, compression, manifest_json, dictionary, payloads).subrange(
                at,
                container_bytes(launcher, compression, manifest_json, dictionary, payloads).len() as int,
            ),
            Ok(header),
        ),
    ensures
        at == launcher.len(),
        header.compression == compression,
        header.entry_count == payloads.len(),
        header.manifest_size == manifest_json.len(),
        header.version == PBIN_VERSION,
        header.flags == 0,
{
    let file = container_bytes(launcher, compression, manifest_json, dictionary, payloads);
    let written = header_for(compression, payloads.len() as u8, manifest_json.len() as u32);
    let tail = manifest_json + dictionary + concat(payloads, payloads.len() as int);
    let rest = file.subrange(launcher.len() as int, file.len() as int);
    assert(rest =~= header_bytes(written) + tail);
    lemma_header_round_trip(written, tail);
}

/// Computing offsets leaves a manifest a description of what the pipeline
/// made.
pub proof fn lemma_describes_kept(
    before: PbinManifest,
    after: PbinManifest,
    binaries: Seq<(String, Vec<u8>)>,
    result: CompressionResult,
)
    requires
        describes(before, binaries, result),
        same_but_offsets(before.entries@, after.entries@),
        before.dictionary_size == after.dictionary_size,
    ensures
        describes(after, binaries, result),
{
    assert forall|i: int| 0 <= i < binaries.len() implies {
        &&& (#[trigger] after.entries@[i]).target@ == result.entries@[i].target@
        &&& after.entries@[i].compressed_size == result.entries@[i].data@.len()
        &&& after.entries@[i].uncompressed_size == binaries[i].1@.len()
        &&& blake3_digest(binaries[i].1@).len() == 32
        &&& after.entries@[i].checksum@ == hex_text(blake3_digest(binaries[i].1@))
        &&& reference_name(after.entries@[i].delta_reference) == reference_name(
            result.entries@[i].delta_reference,
        )
        &&& after.entries@[i].patch_size == result.entries@[i].patch_size
        &&& after.entries@[i].bcj_filtered == result.entries@[i].bcj_filtered
    } by {
        assert(before.entries@[i].target == after.entries@[i].target);
    }
}

/// What extraction may give depends on the header only by its compression
/// kind, its entry count and its manifest size.
pub proof fn lemma_header_fields_suffice(
    file: Seq<u8>,
    at: nat,
    one: PbinHeader,
    other: PbinHeader,
    manifest: PbinManifest,
    name: Seq<char>,
    r: Result<Vec<u8>, Error>,
)
    requires
        one.compression == other.compression,
        one.entry_count == other.entry_count,
        one.manifest_size == other.manifest_size,
    ensures
        extract_outcome(file, at, one, manifest, name, r) == extract_outcome(
            file,
            at,
            other,
            manifest,
            name,
            r,
        ),
{
}

/// The whole way round. Take the binaries of a batch with distinct targets,
/// what the pipeline made of them, the manifest that describes it with its
/// offsets computed, and the container written from these with a launcher
/// behind whose end the payload marker does not occur again. Then reading
/// the header finds it behind the launcher, and extracting the target of any
/// of the binaries gives that binary: no target is missing, nothing lies
/// outside of the file, every payload unpacks, no patch fails, and no
/// checksum differs.
pub proof fn lemma_extraction_gives_the_binary(
    use_bcj: bool,
    use_dict: bool,
    t: Threshold,
    binaries: Seq<(String, Vec<u8>)>,
    result: CompressionResult,
    manifest: PbinManifest,
    launcher: Seq<u8>,
    manifest_json: Seq<u8>,
    payloads: Seq<Vec<u8>>,
    i: int,
    at: int,
    header: PbinHeader,
    r: Result<Vec<u8>, Error>,
)
    requires
        compressed(use_bcj, use_dict, t, binaries, result),
        describes(manifest, binaries, result),
        forall|a: int, b: int|
            0 <= a < b < binaries.len() ==> (#[trigger] binaries[a]).0@ != (
            #[trigger] binaries[b]).0@,
        payloads.len() == binaries.len(),
        forall|k: int|
            0 <= k < payloads.len() ==> (#[trigger] payloads[k])@ == result.entries@[k].data@,
        writable(
            launcher.len(),
            manifest,
            manifest_json.len(),
            dictionary_bytes(result.dictionary).len(),
            payloads,
        ),
        0 <= i < binaries.len(),
        launcher.len() >= 16,
        last_marker_at(
            container_bytes(
                launcher,
                Compression::Zstd,
                manifest_json,
                dictionary_bytes(result.dictionary),
                payloads,
            ),
            launcher.len() - 16,
        ),
        last_marker_at(
            container_bytes(
                launcher,
                Compression::Zstd,
                manifest_json,
                dictionary_bytes(result.dictionary),
                payloads,
            ),
            at - 16,
        ),
        header_outcome(
            container_bytes(
                launcher,
                Compression::Zstd,
                manifest_json,
                dictionary_bytes(result.dictionary),
                payloads,
            ).subrange(
                at,
                container_bytes(
                    launcher,
                    Compression::Zstd,
                    manifest_json,
                    dictionary_bytes(result.dictionary),
                    payloads,
                ).len() as int,
            ),
            Ok(header),
        ),
        extract_outcome(
            container_bytes(
                launcher,
                Compression::Zstd,
                manifest_json,
                dictionary_bytes(result.dictionary),
                payloads,
            ),
            at as nat,
            header,
            manifest,
            binaries[i].0@,
            r,
        ),
    ensures
        at == launcher.len(),
        r matches Ok(bytes) && bytes@ == binaries[i].1@ && verified(manifest.entries@[i], bytes@),
{
    let dict = dictionary_bytes(result.dictionary);
    let file = container_bytes(launcher, Compression::Zstd, manifest_json, dict, payloads);
    let written = header_for(Compression::Zstd, payloads.len() as u8, manifest_json.len() as u32);
    lemma_header_found(
        launcher,
        Compression::Zstd,
        manifest,
        manifest_json,
        dict,
        payloads,
        at,
        header,
    );
    lemma_header_fields_suffice(file, launcher.len(), header, written, manifest, binaries[i].0@, r);
    lemma_container_round_trip(
        use_bcj,
        use_dict,
        t,
        binaries,
        result,
        manifest,
        launcher,
        manifest_json,
        payloads,
        i,
    );
    assert(extract_outcome(file, launcher.len(), written, manifest, binaries[i].0@, r));
    lemma_held_binaries_are_extracted(
        file,
        launcher.len(),
        written,
        manifest,
        binaries[i].0@,
        i,
        r,
    );
}

/// Extraction gives the binary whenever the container holds it: a container
/// that is in place, whose entry unpacks to a binary of the length and the
/// checksum that the entry says, gives that binary, whatever its codec.
pub proof fn lemma_held_binaries_are_extracted(
    file: Seq<u8>,
    at: nat,
    header: PbinHeader,
    manifest: PbinManifest,
    name: Seq<char>,
    i: int,
    r: Result<Vec<u8>, Error>,
)
    requires
        extract_outcome(file, at, header, manifest, name, r),
        entry_named(manifest.entries@, name, 0) == Some(i),
        placed(file, at, header, manifest, i),
        restored(file, at, header, manifest, i) matches Some(bytes) && verified(
            manifest.entries@[i],
            bytes,
        ),
    ensures
        r matches Ok(found) && Some(found@) == restored(file, at, header, manifest, i),
{
}

} // verus!
