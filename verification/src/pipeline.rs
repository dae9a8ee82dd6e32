//! The pipeline that turns the binaries of one program into the payloads of
//! a container: branch filters, a shared dictionary, delta patches between
//! similar binaries, and zstd.

use vstd::prelude::*;
use vstd::slice::slice_to_vec;
use vstd::utf8::encode_utf8;
use crate::bcj::{arch_of_name, bcj_transformed, lemma_bcj_keeps_length, BcjArch, BcjFilter};
use crate::delta::{
    assign_references, create_patch, lemma_never_joins, lemma_owner, owner, pair_views,
    patch_applied, Ratio, Threshold,
};
use crate::dict::{
    compress, zstd_decoded, TrainedDictionary, DEFAULT_DICT_SIZE, MAX_INPUT_SIZE,
};
use crate::error::CompressionError;
use crate::target::{lemma_target_name_round_trip, Target};

verus! {

/// How widely a program is distributed: each tier holds the targets of the
/// one before it.
#[derive(Debug, Clone, Copy, PartialEq, Eq, Structural)]
pub enum PlatformTier {
    /// Linux, macOS and Windows on x86_64 and AArch64.
    Core,
    /// More Linux architectures, musl, 32-bit Windows.
    Standard,
    /// The BSDs, Android, iOS, more Linux architectures, WASI.
    Extended,
}

/// The targets of the core tier.
pub open spec fn core_targets() -> Seq<Seq<char>> {
    seq![
        "linux-x86_64"@,
        "linux-aarch64"@,
        "darwin-x86_64"@,
        "darwin-aarch64"@,
        "windows-x86_64"@,
        "windows-aarch64"@,
    ]
}

/// The targets that the standard tier adds.
pub open spec fn standard_targets() -> Seq<Seq<char>> {
    seq![
        "linux-x86_64-musl"@,
        "linux-aarch64-musl"@,
        "linux-armv7"@,
        "linux-riscv64"@,
        "linux-ppc64le"@,
        "linux-s390x"@,
        "windows-x86"@,
    ]
}

/// The targets that the extended tier adds.
pub open spec fn extended_targets() -> Seq<Seq<char>> {
    seq![
        "freebsd-x86_64"@,
        "freebsd-aarch64"@,
        "netbsd-x86_64"@,
        "openbsd-x86_64"@,
        "android-aarch64"@,
        "android-armv7"@,
        "android-x86_64"@,
        "ios-aarch64"@,
        "linux-mips64"@,
        "linux-loongarch64"@,
        "wasi-wasm32"@,
    ]
}

fn push_core(v: &mut Vec<&'static str>)
    ensures
        final(v)@.len() == old(v)@.len() + 6,
        forall|k: int| 0 <= k < old(v)@.len() ==> final(v)@[k] == old(v)@[k],
        forall|k: int| 0 <= k < 6 ==> (#[trigger] final(v)@[old(v)@.len() + k])@ == core_targets()[k],
{
    v.push("linux-x86_64");
    v.push("linux-aarch64");
    v.push("darwin-x86_64");
    v.push("darwin-aarch64");
    v.push("windows-x86_64");
    v.push("windows-aarch64");
}

fn push_standard(v: &mut Vec<&'static str>)
    ensures
        final(v)@.len() == old(v)@.len() + 7,
        forall|k: int| 0 <= k < old(v)@.len() ==> final(v)@[k] == old(v)@[k],
        forall|k: int| 0 <= k < 7 ==> (#[trigger] final(v)@[old(v)@.len() + k])@ == standard_targets()[k],
{
    v.push("linux-x86_64-musl");
    v.push("linux-aarch64-musl");
    v.push("linux-armv7");
    v.push("linux-riscv64");
    v.push("linux-ppc64le");
    v.push("linux-s390x");
    v.push("windows-x86");
}

fn push_extended(v: &mut Vec<&'static str>)
    ensures
        final(v)@.len() == old(v)@.len() + 11,
        forall|k: int| 0 <= k < old(v)@.len() ==> final(v)@[k] == old(v)@[k],
        forall|k: int| 0 <= k < 11 ==> (#[trigger] final(v)@[old(v)@.len() + k])@ == extended_targets()[k],
{
    v.push("freebsd-x86_64");
    v.push("freebsd-aarch64");
    v.push("netbsd-x86_64");
    v.push("openbsd-x86_64");
    v.push("android-aarch64");
    v.push("android-armv7");
    v.push("android-x86_64");
    v.push("ios-aarch64");
    v.push("linux-mips64");
    v.push("linux-loongarch64");
    v.push("wasi-wasm32");
}

impl PlatformTier {
    /// The canonical identifiers of the targets of this tier.
    pub open spec fn names(self) -> Seq<Seq<char>> {
        match self {
            PlatformTier::Core => core_targets(),
            PlatformTier::Standard => core_targets() + standard_targets(),
            PlatformTier::Extended => core_targets() + standard_targets() + extended_targets(),
        }
    }

    /// The canonical identifiers of the targets of this tier.
    pub fn targets(&self) -> (v: Vec<&'static str>)
        ensures
            v@.len() == self.names().len(),
            forall|k: int| 0 <= k < v@.len() ==> (#[trigger] v@[k])@ == self.names()[k],
    {
        let mut v: Vec<&'static str> = Vec::new();
        push_core(&mut v);
        match self {
            PlatformTier::Core => {},
            PlatformTier::Standard => {
                push_standard(&mut v);
            },
            PlatformTier::Extended => {
                push_standard(&mut v);
                push_extended(&mut v);
            },
        }
        assert forall|k: int| 0 <= k < v@.len() implies (#[trigger] v@[k])@ == self.names()[k] by {
            if k < 6 {
                assert(v@[0 + k]@ == core_targets()[k]);
            } else if k < 13 {
                assert(v@[6 + (k - 6)]@ == standard_targets()[k - 6]);
            } else {
                assert(v@[13 + (k - 13)]@ == extended_targets()[k - 13]);
            }
        }
        v
    }
}

/// Every identifier that a tier lists is the canonical identifier of a
/// target.
pub proof fn lemma_tier_targets_exist(tier: PlatformTier, k: int)
    requires
        0 <= k < tier.names().len(),
    ensures
        Target::named(tier.names()[k]) is Some,
        Target::named(tier.names()[k])->0.name() == tier.names()[k],
{
    let all = core_targets() + standard_targets() + extended_targets();
    assert(tier.names()[k] == all[k]);
    assert(all.len() == 24);
    assert(Target::named(all[k]) is Some) by {
        assert(core_targets().len() == 6 && standard_targets().len() == 7
            && extended_targets().len() == 11);
        if k < 6 {
            assert(all[k] == core_targets()[k]);
        } else if k < 13 {
            assert(all[k] == standard_targets()[k - 6]);
        } else {
            assert(all[k] == extended_targets()[k - 13]);
        }
    }
    lemma_target_name_round_trip(Target::named(all[k])->0, all[k]);
}

/// How hard the pipeline tries.
#[derive(Debug, Clone, Copy, PartialEq, Eq, Structural)]
pub enum CompressionLevel {
    /// Quick, larger output.
    Fast,
    /// The middle way.
    Balanced,
    /// Slow, smallest output.
    Maximum,
}

impl CompressionLevel {
    /// The zstd level of this preset.
    pub open spec fn codec_level(self) -> i32 {
        match self {
            CompressionLevel::Fast => 3,
            CompressionLevel::Balanced => 12,
            CompressionLevel::Maximum => 19,
        }
    }

    /// How similar two binaries have to be for one to be patched against the
    /// other: 4/5, 3/5 or 2/5.
    pub open spec fn threshold(self) -> Threshold {
        match self {
            CompressionLevel::Fast => Threshold { numerator: 4, denominator: 5 },
            CompressionLevel::Balanced => Threshold { numerator: 3, denominator: 5 },
            CompressionLevel::Maximum => Threshold { numerator: 2, denominator: 5 },
        }
    }

    /// The zstd level of this preset.
    pub fn zstd_level(&self) -> (level: i32)
        ensures
            level == self.codec_level(),
    {
        match self {
            CompressionLevel::Fast => 3,
            CompressionLevel::Balanced => 12,
            CompressionLevel::Maximum => 19,
        }
    }

    /// The similarity from which on binaries are grouped.
    pub fn delta_threshold(&self) -> (t: Threshold)
        ensures
            t == self.threshold(),
    {
        match self {
            CompressionLevel::Fast => Threshold { numerator: 4, denominator: 5 },
            CompressionLevel::Balanced => Threshold { numerator: 3, denominator: 5 },
            CompressionLevel::Maximum => Threshold { numerator: 2, denominator: 5 },
        }
    }
}

/// A threshold that no similarity meets.
pub open spec fn never() -> Threshold {
    Threshold { numerator: 1, denominator: 0 }
}

/// One payload as the pipeline made it.
#[derive(Debug)]
pub struct CompressedEntry {
    /// The target of the binary.
    pub target: String,
    /// The payload: a zstd frame of the filtered binary, or of a patch.
    pub data: Vec<u8>,
    /// Whether the binary went through its branch filter.
    pub bcj_filtered: bool,
    /// The target that the payload is a patch against, if it is a patch.
    pub delta_reference: Option<String>,
    /// The length of the binary.
    pub original_size: usize,
    /// The length of the patch before compression, 0 where there is none.
    pub patch_size: usize,
}

/// Totals of one run of the pipeline.
#[derive(Debug)]
pub struct CompressionStats {
    /// The total length of the binaries.
    pub original_size: usize,
    /// The total length of the payloads and of the dictionary.
    pub compressed_size: usize,
    /// How many binaries went through a branch filter.
    pub bcj_filtered: usize,
    /// How many payloads are patches.
    pub delta_used: usize,
    /// Whether a dictionary was trained.
    pub dict_trained: bool,
}

impl Default for CompressionStats {
    fn default() -> (stats: Self)
        ensures
            stats.original_size == 0,
            stats.compressed_size == 0,
            stats.bcj_filtered == 0,
            stats.delta_used == 0,
            !stats.dict_trained,
    {
        CompressionStats {
            original_size: 0,
            compressed_size: 0,
            bcj_filtered: 0,
            delta_used: 0,
            dict_trained: false,
        }
    }
}

impl CompressionStats {
    /// The compressed size as a share of the original size, 0 where there was
    /// nothing to compress.
    pub fn ratio(&self) -> (r: Ratio)
        ensures
            r.parts() == if self.original_size == 0 {
                (0nat, 1nat)
            } else {
                (self.compressed_size as nat, self.original_size as nat)
            },
    {
        let parts = if self.original_size == 0 {
            Ratio::new(0, 1)
        } else {
            Ratio::new(self.compressed_size as u128, self.original_size as u128)
        };
        match parts {
            Some(r) => r,
            None => Ratio::zero(),
        }
    }

    /// The share of the original size that compression saved, in percent,
    /// and whether it is a loss instead: the output is larger than the input.
    /// Where there was nothing to compress the saving counts as 100 percent.
    pub fn savings_percent(&self) -> (r: (bool, Ratio))
        ensures
            r.0 == (self.original_size != 0 && self.compressed_size > self.original_size),
            r.1.parts() == if self.original_size == 0 {
                (100nat, 1nat)
            } else if self.compressed_size > self.original_size {
                (
                    ((self.compressed_size - self.original_size) * 100) as nat,
                    self.original_size as nat,
                )
            } else {
                (
                    ((self.original_size - self.compressed_size) * 100) as nat,
                    self.original_size as nat,
                )
            },
    {
        let original = self.original_size as u128;
        let compressed = self.compressed_size as u128;
        let loss = original != 0 && compressed > original;
        let parts = if original == 0 {
            Ratio::new(100, 1)
        } else if loss {
            Ratio::new((compressed - original) * 100, original)
        } else {
            Ratio::new((original - compressed) * 100, original)
        };
        match parts {
            Some(r) => (loss, r),
            None => (loss, Ratio::zero()),
        }
    }
}

/// What the pipeline made of a batch.
#[derive(Debug)]
pub struct CompressionResult {
    /// One entry for each binary, in input order.
    pub entries: Vec<CompressedEntry>,
    /// The dictionary that every payload was compressed with, if one was
    /// trained.
    pub dictionary: Option<Vec<u8>>,
    /// The totals.
    pub stats: CompressionStats,
}

/// The bytes of an optional dictionary: none is the empty dictionary.
pub open spec fn dictionary_bytes(dictionary: Option<Vec<u8>>) -> Seq<u8> {
    match dictionary {
        Some(d) => d@,
        None => Seq::empty(),
    }
}

/// Whether the binary of the target `name` goes through a branch filter.
pub open spec fn is_filtered(use_bcj: bool, name: Seq<char>) -> bool {
    use_bcj && arch_of_name(encode_utf8(name)) != BcjArch::Passthrough
}

/// The bytes of a binary as they are compressed: encoded by the branch filter
/// of its target from stream position 0, where filters are in use.
pub open spec fn filtered_data(use_bcj: bool, name: Seq<char>, data: Seq<u8>) -> Seq<u8> {
    if use_bcj {
        bcj_transformed(arch_of_name(encode_utf8(name)), true, data, 0)
    } else {
        data
    }
}

/// The names of a batch with the bytes that are compressed for each.
pub open spec fn filtered_inputs(use_bcj: bool, binaries: Seq<(String, Vec<u8>)>) -> Seq<
    (Seq<char>, Seq<u8>),
> {
    Seq::new(
        binaries.len(),
        |k: int| (binaries[k].0@, filtered_data(use_bcj, binaries[k].0@, binaries[k].1@)),
    )
}

/// Whether `frame` is a payload for `target`: read with `dict` it is `target`
/// itself, or, with a reference, a patch of `patch_size` bytes that turns the
/// reference into `target`. What the frame holds is no longer than the codec
/// takes in one piece.
pub open spec fn payload_holds(
    frame: Seq<u8>,
    dict: Seq<u8>,
    reference: Option<Seq<u8>>,
    patch_size: nat,
    target: Seq<u8>,
) -> bool {
    match reference {
        None => patch_size == 0 && target.len() <= MAX_INPUT_SIZE && zstd_decoded(frame, dict)
            == Some(target),
        Some(base) => zstd_decoded(frame, dict) matches Some(patch) && patch.len() == patch_size
            && patch_size <= MAX_INPUT_SIZE && patch_applied(base, patch) == Some(target),
    }
}

/// Whether `entry` is the entry for input `j` of the filtered batch `inputs`:
/// it names the target, and its payload holds the filtered binary, as a patch
/// only against the reference of the group that `j` belongs to.
pub open spec fn entry_holds(
    inputs: Seq<(Seq<char>, Seq<u8>)>,
    t: Threshold,
    dict: Seq<u8>,
    j: int,
    entry: CompressedEntry,
) -> bool {
    &&& entry.target@ == inputs[j].0
    &&& entry.original_size == inputs[j].1.len()
    &&& match entry.delta_reference {
        None => payload_holds(entry.data@, dict, None, entry.patch_size as nat, inputs[j].1),
        Some(name) => {
            &&& owner(inputs, t, j) != j
            &&& name@ == inputs[owner(inputs, t, j)].0
            &&& payload_holds(
                entry.data@,
                dict,
                Some(inputs[owner(inputs, t, j)].1),
                entry.patch_size as nat,
                inputs[j].1,
            )
        },
    }
}

/// The total length of the first `n` binaries.
pub open spec fn total_size(binaries: Seq<(String, Vec<u8>)>, n: int) -> nat
    decreases n,
{
    if n <= 0 {
        0
    } else {
        total_size(binaries, n - 1) + binaries[n - 1].1@.len()
    }
}

/// The total length of the first `n` payloads.
pub open spec fn payload_size(entries: Seq<CompressedEntry>, n: int) -> nat
    decreases n,
{
    if n <= 0 {
        0
    } else {
        payload_size(entries, n - 1) + entries[n - 1].data@.len()
    }
}

/// How many of the first `n` entries are filtered.
pub open spec fn filtered_count(entries: Seq<CompressedEntry>, n: int) -> nat
    decreases n,
{
    if n <= 0 {
        0
    } else {
        filtered_count(entries, n - 1) + if entries[n - 1].bcj_filtered {
            1nat
        } else {
            0nat
        }
    }
}

/// How many of the first `n` entries are patches.
pub open spec fn delta_count(entries: Seq<CompressedEntry>, n: int) -> nat
    decreases n,
{
    if n <= 0 {
        0
    } else {
        delta_count(entries, n - 1) + if entries[n - 1].delta_reference is Some {
            1nat
        } else {
            0nat
        }
    }
}

/// A total as a statistic holds it: the largest number there is where the
/// total is larger.
pub open spec fn capped(total: nat) -> nat {
    if total <= usize::MAX {
        total
    } else {
        usize::MAX as nat
    }
}

/// Whether `result` is what a pipeline with these settings owes for
/// `binaries`: an entry for each binary in input order that holds it, a
/// dictionary only where one was asked for and there were at least four
/// binaries, and the totals, that of the payloads capped.
pub open spec fn compressed(
    use_bcj: bool,
    use_dict: bool,
    t: Threshold,
    binaries: Seq<(String, Vec<u8>)>,
    result: CompressionResult,
) -> bool {
    let inputs = filtered_inputs(use_bcj, binaries);
    let dict = dictionary_bytes(result.dictionary);
    let n = binaries.len() as int;
    &&& result.entries@.len() == n
    &&& forall|j: int|
        0 <= j < n ==> {
            &&& entry_holds(inputs, t, dict, j, #[trigger] result.entries@[j])
            &&& result.entries@[j].bcj_filtered == is_filtered(use_bcj, binaries[j].0@)
            &&& result.entries@[j].original_size == binaries[j].1@.len()
        }
    &&& result.dictionary is Some ==> use_dict && n >= 4 && dict.len() <= DEFAULT_DICT_SIZE
    &&& result.stats.original_size == total_size(binaries, n)
    &&& result.stats.compressed_size == capped(payload_size(result.entries@, n) + dict.len())
    &&& result.stats.bcj_filtered == filtered_count(result.entries@, n)
    &&& result.stats.delta_used == delta_count(result.entries@, n)
    &&& result.stats.dict_trained == (result.dictionary is Some)
}

/// The payload that is kept for a member of a group, of a compressed patch
/// with the length of the patch and a direct frame: each with whether it is
/// the patch and the length of the patch, 0 for the direct frame. The patch
/// is kept where it is strictly smaller than the direct frame, or where
/// there is no direct frame; the direct frame else; and where there is
/// neither, the error of the direct compression.
pub open spec fn chosen(
    patch: Option<(Vec<u8>, usize)>,
    direct: Result<Vec<u8>, CompressionError>,
) -> Result<(Vec<u8>, bool, usize), CompressionError> {
    match (patch, direct) {
        (Some((frame, size)), Ok(whole)) => Ok(
            if frame@.len() < whole@.len() {
                (frame, true, size)
            } else {
                (whole, false, 0)
            },
        ),
        (Some((frame, size)), Err(_)) => Ok((frame, true, size)),
        (None, Ok(whole)) => Ok((whole, false, 0)),
        (None, Err(e)) => Err(e),
    }
}

/// Whether the two candidates for the payload of a member are what they
/// are taken for: the patch frame holds a patch of the length that comes with
/// it, which turns the reference into the target, and the direct frame holds
/// the target; a direct compression that failed did so with a zstd error.
pub open spec fn candidates_hold(
    dict: Seq<u8>,
    reference: Seq<u8>,
    target: Seq<u8>,
    patch: Option<(Vec<u8>, usize)>,
    direct: Result<Vec<u8>, CompressionError>,
) -> bool {
    &&& patch matches Some((frame, size)) ==> payload_holds(
        frame@,
        dict,
        Some(reference),
        size as nat,
        target,
    )
    &&& match direct {
        Ok(whole) => payload_holds(whole@, dict, None, 0, target),
        Err(CompressionError::Zstd(_)) => true,
        Err(_) => false,
    }
}

/// Picks the payload of a member of a group from the two candidates: the
/// smaller, the direct frame where both are as long, the one that there is
/// where the other could not be made.
pub fn choose_payload(
    patch: Option<(Vec<u8>, usize)>,
    direct: Result<Vec<u8>, CompressionError>,
) -> (r: Result<(Vec<u8>, bool, usize), CompressionError>)
    ensures
        r == chosen(patch, direct),
{
    match patch {
        Some((frame, size)) => match direct {
            Ok(whole) => if frame.len() < whole.len() {
                Ok((frame, true, size))
            } else {
                Ok((whole, false, 0))
            },
            Err(_) => Ok((frame, true, size)),
        },
        None => match direct {
            Ok(whole) => Ok((whole, false, 0)),
            Err(e) => Err(e),
        },
    }
}

/// The pipeline and its settings.
pub struct CompressionPipeline {
    level: CompressionLevel,
    use_bcj: bool,
    use_delta: bool,
    use_dict: bool,
    dictionary: Option<TrainedDictionary>,
}

impl Default for CompressionPipeline {
    fn default() -> (p: Self)
        ensures
            p.level() == CompressionLevel::Balanced,
            p.uses_bcj(),
            p.uses_delta(),
            p.uses_dict(),
    {
        CompressionPipeline::new(CompressionLevel::Balanced)
    }
}

impl CompressionPipeline {
    /// The level of this pipeline.
    pub closed spec fn level(&self) -> CompressionLevel {
        self.level
    }

    /// Whether binaries go through branch filters.
    pub closed spec fn uses_bcj(&self) -> bool {
        self.use_bcj
    }

    /// Whether similar binaries are stored as patches.
    pub closed spec fn uses_delta(&self) -> bool {
        self.use_delta
    }

    /// Whether a dictionary is trained.
    pub closed spec fn uses_dict(&self) -> bool {
        self.use_dict
    }

    /// The dictionary that payloads are compressed with at present, empty for
    /// none.
    pub closed spec fn dictionary(&self) -> Seq<u8> {
        match self.dictionary {
            Some(d) => d.data@,
            None => Seq::empty(),
        }
    }

    /// The threshold that groups are made with: that of the level, or one
    /// that nothing meets where patches are not in use.
    pub open spec fn grouping_threshold(&self) -> Threshold {
        if self.uses_delta() {
            self.level().threshold()
        } else {
            never()
        }
    }

    /// A pipeline that uses everything: filters, patches and a dictionary.
    pub fn new(level: CompressionLevel) -> (p: Self)
        ensures
            p.level() == level,
            p.uses_bcj(),
            p.uses_delta(),
            p.uses_dict(),
            p.dictionary() == Seq::<u8>::empty(),
    {
        CompressionPipeline { level, use_bcj: true, use_delta: true, use_dict: true, dictionary: None }
    }

    /// The same pipeline without branch filters.
    pub fn without_bcj(self) -> (p: Self)
        ensures
            p.level() == self.level(),
            !p.uses_bcj(),
            p.uses_delta() == self.uses_delta(),
            p.uses_dict() == self.uses_dict(),
            p.dictionary() == self.dictionary(),
    {
        CompressionPipeline {
            level: self.level,
            use_bcj: false,
            use_delta: self.use_delta,
            use_dict: self.use_dict,
            dictionary: self.dictionary,
        }
    }

    /// The same pipeline without patches.
    pub fn without_delta(self) -> (p: Self)
        ensures
            p.level() == self.level(),
            p.uses_bcj() == self.uses_bcj(),
            !p.uses_delta(),
            p.uses_dict() == self.uses_dict(),
            p.dictionary() == self.dictionary(),
    {
        CompressionPipeline {
            level: self.level,
            use_bcj: self.use_bcj,
            use_delta: false,
            use_dict: self.use_dict,
            dictionary: self.dictionary,
        }
    }

    /// The same pipeline without a dictionary.
    pub fn without_dict(self) -> (p: Self)
        ensures
            p.level() == self.level(),
            p.uses_bcj() == self.uses_bcj(),
            p.uses_delta() == self.uses_delta(),
            !p.uses_dict(),
            p.dictionary() == self.dictionary(),
    {
        CompressionPipeline {
            level: self.level,
            use_bcj: self.use_bcj,
            use_delta: self.use_delta,
            use_dict: false,
            dictionary: self.dictionary,
        }
    }

    /// Compresses one piece of data with the dictionary of the batch, if
    /// there is one.
    fn compress_single(&self, data: &[u8], level: i32) -> (r: Result<Vec<u8>, CompressionError>)
        ensures
            match r {
                Ok(frame) => data@.len() <= MAX_INPUT_SIZE && zstd_decoded(
                    frame@,
                    self.dictionary(),
                ) == Some(data@),
                Err(CompressionError::Zstd(_)) => true,
                Err(_) => false,
            },
    {
        match &self.dictionary {
            Some(dict) => dict.compress(data, level),
            None => compress(data, level),
        }
    }

    /// Compresses a reference: the binary itself.
    fn compress_reference(&self, target: &[u8], level: i32) -> (r: Result<
        (Vec<u8>, bool, usize),
        CompressionError,
    >)
        ensures
            match r {
                Ok((frame, is_patch, patch_size)) => !is_patch && payload_holds(
                    frame@,
                    self.dictionary(),
                    None,
                    patch_size as nat,
                    target@,
                ),
                Err(CompressionError::Zstd(_)) => true,
                Err(_) => false,
            },
    {
        match self.compress_single(target, level) {
            Ok(frame) => Ok((frame, false, 0)),
            Err(e) => Err(e),
        }
    }

    /// Compresses a member of a group both as a patch against the reference
    /// and directly, and lets `choose_payload` pick between the two. A patch
    /// that cannot be made or compressed is no candidate. What is returned
    /// is what `choose_payload` makes of two candidates that hold what they
    /// should.
    fn compress_member(&self, reference: &[u8], target: &[u8], level: i32) -> (r: Result<
        (Vec<u8>, bool, usize),
        CompressionError,
    >)
        ensures
            match r {
                Ok((frame, is_patch, patch_size)) => payload_holds(
                    frame@,
                    self.dictionary(),
                    if is_patch {
                        Some(reference@)
                    } else {
                        None
                    },
                    patch_size as nat,
                    target@,
                ),
                Err(CompressionError::Zstd(_)) => true,
                Err(_) => false,
            },
            exists|patch: Option<(Vec<u8>, usize)>, direct: Result<Vec<u8>, CompressionError>|
                r == #[trigger] chosen(patch, direct) && candidates_hold(
                    self.dictionary(),
                    reference@,
                    target@,
                    patch,
                    direct,
                ),
    {
        let as_patch: Option<(Vec<u8>, usize)> = match create_patch(reference, target) {
            Ok(patch) => match self.compress_single(patch.as_slice(), level) {
                Ok(frame) => Some((frame, patch.len())),
                Err(_) => None,
            },
            Err(_) => None,
        };
        let direct = self.compress_single(target, level);
        let ghost patch = as_patch;
        let ghost whole = direct;
        let r = choose_payload(as_patch, direct);
        assert(r == chosen(patch, whole) && candidates_hold(
            self.dictionary(),
            reference@,
            target@,
            patch,
            whole,
        ));
        r
    }

    /// Copies the batch, each binary encoded by the branch filter of its
    /// target where filters are in use.
    fn filter_all(&self, binaries: &Vec<(String, Vec<u8>)>) -> (processed: Vec<(String, Vec<u8>)>)
        ensures
            pair_views(processed@) == filtered_inputs(self.uses_bcj(), binaries@),
    {
        let mut processed: Vec<(String, Vec<u8>)> = Vec::new();
        let mut i: usize = 0;
        while i < binaries.len()
            invariant
                i <= binaries@.len(),
                processed@.len() == i,
                forall|k: int|
                    0 <= k < i ==> (#[trigger] processed@[k]).0@ == binaries@[k].0@
                        && processed@[k].1@ == filtered_data(
                        self.uses_bcj(),
                        binaries@[k].0@,
                        binaries@[k].1@,
                    ),
            decreases binaries@.len() - i,
        {
            let name = binaries[i].0.clone();
            let mut data = slice_to_vec(binaries[i].1.as_slice());
            if self.use_bcj {
                let arch = BcjArch::from_target(name.as_str());
                if arch != BcjArch::Passthrough {
                    let mut filter = BcjFilter::new(arch);
                    let _ = filter.encode(data.as_mut_slice());
                }
            }
            processed.push((name, data));
            i += 1;
        }
        assert(pair_views(processed@) =~= filtered_inputs(self.uses_bcj(), binaries@));
        processed
    }

    /// Trains the dictionary of the batch, if one is asked for and there are
    /// at least four binaries. A training that fails leaves the batch without
    /// one.
    fn train(&mut self, processed: &Vec<(String, Vec<u8>)>)
        ensures
            final(self).level() == old(self).level(),
            final(self).uses_bcj() == old(self).uses_bcj(),
            final(self).uses_delta() == old(self).uses_delta(),
            final(self).uses_dict() == old(self).uses_dict(),
            final(self).dictionary is Some ==> old(self).uses_dict() && processed@.len() >= 4
                && final(self).dictionary().len() <= DEFAULT_DICT_SIZE,
    {
        self.dictionary = None;
        if self.use_dict && processed.len() >= 4 {
            let mut samples: Vec<&[u8]> = Vec::new();
            let mut i: usize = 0;
            while i < processed.len()
                invariant
                    i <= processed@.len(),
                decreases processed@.len() - i,
            {
                samples.push(processed[i].1.as_slice());
                i += 1;
            }
            match TrainedDictionary::train(samples.as_slice(), DEFAULT_DICT_SIZE) {
                Ok(dict) => {
                    self.dictionary = Some(dict);
                },
                Err(_) => {},
            }
        }
    }

    /// Finds the reference of each binary of the batch: by similarity where
    /// patches are in use, else each binary is its own.
    fn plan(&self, processed: &Vec<(String, Vec<u8>)>) -> (table: Vec<usize>)
        ensures
            table@.len() == processed@.len(),
            forall|j: int|
                0 <= j < table@.len() ==> #[trigger] table@[j] == owner(
                    pair_views(processed@),
                    self.grouping_threshold(),
                    j,
                ),
    {
        if self.use_delta {
            assign_references(processed.as_slice(), self.level.delta_threshold())
        } else {
            let mut table: Vec<usize> = Vec::new();
            let mut i: usize = 0;
            while i < processed.len()
                invariant
                    i <= processed@.len(),
                    table@.len() == i,
                    forall|j: int| 0 <= j < i ==> #[trigger] table@[j] == j,
                decreases processed@.len() - i,
            {
                table.push(i);
                i += 1;
            }
            proof {
                lemma_never_joins(pair_views(processed@), 0);
            }
            table
        }
    }

    /// Compresses the filtered batch with the dictionary at hand.
    fn compress_batch(
        &self,
        binaries: &Vec<(String, Vec<u8>)>,
        processed: &Vec<(String, Vec<u8>)>,
        original_size: usize,
    ) -> (r: Result<CompressionResult, CompressionError>)
        requires
            pair_views(processed@) == filtered_inputs(self.uses_bcj(), binaries@),
            self.dictionary is Some ==> self.uses_dict() && binaries@.len() >= 4
                && self.dictionary().len() <= DEFAULT_DICT_SIZE,
            original_size == total_size(binaries@, binaries@.len() as int),
        ensures
            match r {
                Ok(result) => compressed(
                    self.uses_bcj(),
                    self.uses_dict(),
                    self.grouping_threshold(),
                    binaries@,
                    result,
                ) && dictionary_bytes(result.dictionary) == self.dictionary(),
                Err(CompressionError::Zstd(_)) => true,
                Err(_) => false,
            },
    {
        let n = binaries.len();
        assert(pair_views(processed@).len() == n);
        let table = self.plan(processed);
        let level = self.level.zstd_level();
        let ghost inputs = pair_views(processed@);
        let ghost t = self.grouping_threshold();
        let ghost dict = self.dictionary();
        let mut entries: Vec<CompressedEntry> = Vec::new();
        let mut compressed_size: usize = match &self.dictionary {
            Some(d) => d.data.len(),
            None => 0,
        };
        let mut bcj_filtered: usize = 0;
        let mut delta_used: usize = 0;
        let mut j: usize = 0;
        while j < n
            invariant
                j <= n,
                n == binaries@.len(),
                n == processed@.len(),
                table@.len() == n,
                inputs == pair_views(processed@),
                inputs == filtered_inputs(self.uses_bcj(), binaries@),
                t == self.grouping_threshold(),
                dict == self.dictionary(),
                forall|k: int| 0 <= k < n ==> #[trigger] table@[k] == owner(inputs, t, k),
                entries@.len() == j,
                forall|k: int|
                    0 <= k < j ==> entry_made(
                        self.uses_bcj(),
                        inputs,
                        t,
                        dict,
                        k,
                        #[trigger] entries@[k],
                    ),
                compressed_size == capped(payload_size(entries@, j as int) + dict.len()),
                bcj_filtered == filtered_count(entries@, j as int),
                delta_used == delta_count(entries@, j as int),
                bcj_filtered <= j,
                delta_used <= j,
            decreases n - j,
        {
            let r = table[j];
            proof {
                lemma_owner(inputs, t, j as int);
            }
            let target = processed[j].1.as_slice();
            let made = if r == j {
                self.compress_reference(target, level)
            } else {
                self.compress_member(processed[r].1.as_slice(), target, level)
            };
            let (frame, is_patch, patch_size) = match made {
                Ok(made) => made,
                Err(e) => {
                    return Err(e);
                },
            };
            compressed_size = if frame.len() <= usize::MAX - compressed_size {
                compressed_size + frame.len()
            } else {
                usize::MAX
            };
            let filtered = self.use_bcj && BcjArch::from_target(processed[j].0.as_str())
                != BcjArch::Passthrough;
            if filtered {
                bcj_filtered += 1;
            }
            if is_patch {
                delta_used += 1;
            }
            let entry = CompressedEntry {
                target: processed[j].0.clone(),
                data: frame,
                bcj_filtered: filtered,
                delta_reference: if is_patch {
                    Some(processed[r].0.clone())
                } else {
                    None
                },
                original_size: target.len(),
                patch_size,
            };
            assert(entry_made(self.uses_bcj(), inputs, t, dict, j as int, entry));
            let ghost before = entries@;
            entries.push(entry);
            proof {
                lemma_counts_extend(before, entries@, j as int);
            }
            j += 1;
        }
        let dictionary = match &self.dictionary {
            Some(d) => Some(slice_to_vec(d.data.as_slice())),
            None => None,
        };
        let dict_trained = dictionary.is_some();
        let result = CompressionResult {
            entries,
            dictionary,
            stats: CompressionStats {
                original_size,
                compressed_size,
                bcj_filtered,
                delta_used,
                dict_trained,
            },
        };
        proof {
            assert forall|k: int| 0 <= k < n implies result.entries@[k].original_size
                == binaries@[k].1@.len() by {
                assert(entry_made(self.uses_bcj(), inputs, t, dict, k, result.entries@[k]));
                if self.uses_bcj() {
                    lemma_bcj_keeps_length(
                        arch_of_name(encode_utf8(binaries@[k].0@)),
                        true,
                        binaries@[k].1@,
                        0,
                    );
                }
            }
        }
        Ok(result)
    }

    /// The total length of the binaries of a batch, if it is a number that a
    /// statistic can hold.
    fn total_of(binaries: &Vec<(String, Vec<u8>)>) -> (r: Option<usize>)
        ensures
            match r {
                Some(total) => total == total_size(binaries@, binaries@.len() as int),
                None => total_size(binaries@, binaries@.len() as int) > usize::MAX,
            },
    {
        let mut total: usize = 0;
        let mut i: usize = 0;
        while i < binaries.len()
            invariant
                i <= binaries@.len(),
                total == total_size(binaries@, i as int),
            decreases binaries@.len() - i,
        {
            let size = binaries[i].1.len();
            if size > usize::MAX - total {
                proof {
                    lemma_total_size_grows(binaries@, i + 1, binaries@.len() as int);
                }
                return None;
            }
            total += size;
            i += 1;
        }
        Some(total)
    }

    /// Runs the pipeline over a batch. Each binary goes through the branch
    /// filter of its target, a dictionary is trained from the filtered
    /// binaries, they are grouped by similarity, and each is compressed: the
    /// reference of a group directly, every other member as `choose_payload`
    /// picks between a patch against the reference and a direct frame. The
    /// entries come in input order, and the dictionary of the result is the
    /// one that the pipeline is left with. An empty batch gives an empty
    /// result; a batch whose total length is no number that the statistics
    /// can hold is invalid data; otherwise the codec decides whether there is
    /// a result.
    pub fn compress_all(&mut self, binaries: Vec<(String, Vec<u8>)>) -> (r: Result<
        CompressionResult,
        CompressionError,
    >)
        ensures
            final(self).level() == old(self).level(),
            final(self).uses_bcj() == old(self).uses_bcj(),
            final(self).uses_delta() == old(self).uses_delta(),
            final(self).uses_dict() == old(self).uses_dict(),
            binaries@.len() == 0 ==> r is Ok,
            total_size(binaries@, binaries@.len() as int) > usize::MAX ==> r is Err,
            match r {
                Ok(result) => compressed(
                    old(self).uses_bcj(),
                    old(self).uses_dict(),
                    old(self).grouping_threshold(),
                    binaries@,
                    result,
                ) && final(self).dictionary() == dictionary_bytes(result.dictionary),
                Err(CompressionError::Zstd(_)) => binaries@.len() > 0 && total_size(
                    binaries@,
                    binaries@.len() as int,
                ) <= usize::MAX,
                Err(CompressionError::InvalidData(_)) => total_size(
                    binaries@,
                    binaries@.len() as int,
                ) > usize::MAX,
                Err(_) => false,
            },
    {
        if binaries.len() == 0 {
            self.dictionary = None;
            return Ok(
                CompressionResult {
                    entries: Vec::new(),
                    dictionary: None,
                    stats: CompressionStats::default(),
                },
            );
        }
        let original_size = match Self::total_of(&binaries) {
            Some(total) => total,
            None => {
                return Err(CompressionError::InvalidData("Batch too large".to_owned()));
            },
        };
        let processed = self.filter_all(&binaries);
        assert(pair_views(processed@).len() == binaries@.len());
        self.train(&processed);
        self.compress_batch(&binaries, &processed, original_size)
    }
}

proof fn lemma_total_size_grows(binaries: Seq<(String, Vec<u8>)>, n: int, m: int)
    requires
        0 <= n <= m,
    ensures
        total_size(binaries, n) <= total_size(binaries, m),
    decreases m - n,
{
    if n < m {
        lemma_total_size_grows(binaries, n, m - 1);
    }
}

/// Whether `entry` is the entry that the pipeline makes for input `j`: it
/// holds the filtered binary, and its flag says whether a filter was applied.
pub open spec fn entry_made(
    use_bcj: bool,
    inputs: Seq<(Seq<char>, Seq<u8>)>,
    t: Threshold,
    dict: Seq<u8>,
    j: int,
    entry: CompressedEntry,
) -> bool {
    &&& entry_holds(inputs, t, dict, j, entry)
    &&& entry.bcj_filtered == is_filtered(use_bcj, inputs[j].0)
}

proof fn lemma_counts_extend(before: Seq<CompressedEntry>, after: Seq<CompressedEntry>, n: int)
    requires
        0 <= n == before.len(),
        after.len() == n + 1,
        forall|k: int| 0 <= k < n ==> before[k] == after[k],
    ensures
        payload_size(after, n) == payload_size(before, n),
        filtered_count(after, n) == filtered_count(before, n),
        delta_count(after, n) == delta_count(before, n),
    decreases n,
{
    if n > 0 {
        lemma_counts_extend(before.subrange(0, n - 1), after.subrange(0, n), n - 1);
        lemma_counts_prefix(before, n - 1, n - 1);
        lemma_counts_prefix(after, n, n - 1);
        lemma_counts_prefix(before, n, n);
    }
}

proof fn lemma_counts_prefix(entries: Seq<CompressedEntry>, len: int, n: int)
    requires
        0 <= n <= len <= entries.len(),
    ensures
        payload_size(entries.subrange(0, len), n) == payload_size(entries, n),
        filtered_count(entries.subrange(0, len), n) == filtered_count(entries, n),
        delta_count(entries.subrange(0, len), n) == delta_count(entries, n),
    decreases n,
{
    if n > 0 {
        lemma_counts_prefix(entries, len, n - 1);
    }
}

/// Patches go one level deep: in what the pipeline makes, a payload that is a
/// patch names as its reference an earlier binary of the batch whose own
/// payload is no patch.
pub proof fn lemma_one_level(
    use_bcj: bool,
    use_dict: bool,
    t: Threshold,
    binaries: Seq<(String, Vec<u8>)>,
    result: CompressionResult,
    j: int,
)
    requires
        compressed(use_bcj, use_dict, t, binaries, result),
        0 <= j < binaries.len(),
        result.entries@[j].delta_reference is Some,
    ensures
        0 <= owner(filtered_inputs(use_bcj, binaries), t, j) < j,
        result.entries@[j].delta_reference->0@ == binaries[owner(
            filtered_inputs(use_bcj, binaries),
            t,
            j,
        )].0@,
        result.entries@[owner(filtered_inputs(use_bcj, binaries), t, j)].delta_reference is None,
{
    let inputs = filtered_inputs(use_bcj, binaries);
    let dict = dictionary_bytes(result.dictionary);
    let r = owner(inputs, t, j);
    lemma_owner(inputs, t, j);
    assert(entry_holds(inputs, t, dict, j, result.entries@[j]));
    assert(entry_holds(inputs, t, dict, r, result.entries@[r]));
}

} // verus!
