//! Zstandard compression, with and without a dictionary trained from the
//! binaries of one batch.

use vstd::prelude::*;
use vstd::string::StringExecFns;
use crate::error::{io_error_text, CompressionError};

verus! {

/// The dictionary size that the pipeline asks for.
pub const DEFAULT_DICT_SIZE: usize = 32 * 1024;

/// The largest dictionary that is ever trained.
pub const MAX_DICT_SIZE: usize = 128 * 1024;

/// The fewest samples that a dictionary is trained from.
pub const MIN_SAMPLES: usize = 4;

/// The largest input that is handed to the codec in one piece: its worst-case
/// output still fits a buffer on a 32-bit machine.
pub const MAX_INPUT_SIZE: usize = 0x7000_0000;

/// The largest output that the codec is ever allowed to produce.
pub const MAX_OUTPUT_SIZE: usize = 0x7FFF_FFFF;

/// The bytes that the zstd frames in `frame` stand for when they are read with
/// the dictionary `dict` (empty for none), if the dictionary can be loaded and
/// they are frames that can be read with it.
pub uninterp spec fn zstd_decoded(frame: Seq<u8>, dict: Seq<u8>) -> Option<Seq<u8>>;

/// Why the codec refused: while it was set up with level and dictionary, or
/// while it ran. Each holds the text of the error.
pub(crate) enum CodecFailure {
    Setup(String),
    Run(String),
}

/// The sum of the lengths of the first `n` samples.
pub open spec fn total_len(samples: Seq<&[u8]>, n: int) -> nat
    decreases n,
{
    if n <= 0 {
        0
    } else {
        total_len(samples, n - 1) + samples[n - 1]@.len()
    }
}

/// `zstd::dict::from_samples`. It copies the samples into one buffer of their
/// total length, which therefore has to be one that a vector can have, and
/// lets zstd fill a buffer of capacity `max_size` with the dictionary, so
/// that the dictionary is no longer than that. Whether zstd finds the samples
/// good enough to train on is its own affair.
#[verifier::external_body]
fn train_with_zstd(samples: &[&[u8]], max_size: usize) -> (r: Result<Vec<u8>, std::io::Error>)
    requires
        total_len(samples@, samples@.len() as int) <= MAX_OUTPUT_SIZE,
        max_size <= MAX_DICT_SIZE,
    ensures
        r matches Ok(dict) ==> dict@.len() <= max_size,
{
    zstd::dict::from_samples(samples, max_size)
}

/// `zstd::bulk::Compressor::with_dictionary`, then `compress` on the
/// compressor. zstd clamps the level to the range it supports and reserves a
/// buffer of `compress_bound(data.len())` bytes, which `MAX_INPUT_SIZE` keeps
/// within what a vector can have. What comes out is a zstd frame that reads
/// back as `data` with the same dictionary; the bytes of the frame themselves
/// are left open.
#[verifier::external_body]
fn compress_with_zstd(data: &[u8], dict: &[u8], level: i32) -> (r: Result<Vec<u8>, CodecFailure>)
    requires
        data@.len() <= MAX_INPUT_SIZE,
    ensures
        r matches Ok(frame) ==> zstd_decoded(frame@, dict@) == Some(data@),
{
    let mut compressor = match zstd::bulk::Compressor::with_dictionary(level, dict) {
        Ok(compressor) => compressor,
        Err(e) => return Err(CodecFailure::Setup(format!("{}", e))),
    };
    match compressor.compress(data) {
        Ok(frame) => Ok(frame),
        Err(e) => Err(CodecFailure::Run(format!("{}", e))),
    }
}

/// `zstd::bulk::Decompressor::with_dictionary`, then `decompress` on the
/// decompressor. It refuses output of more than `capacity` bytes and reserves
/// at most that much, which `MAX_OUTPUT_SIZE` keeps within what a vector can
/// have. What comes out is what the frames stand for. It fails where the
/// dictionary cannot be loaded, where zstd refuses the frames, and where what
/// they stand for is longer than `capacity`: that is, where there is nothing
/// that the frames stand for with this dictionary, or too much. As the
/// specifications of `Vec` do, this takes memory to suffice.
#[verifier::external_body]
fn decompress_with_zstd(data: &[u8], dict: &[u8], capacity: usize) -> (r: Result<
    Vec<u8>,
    CodecFailure,
>)
    requires
        capacity <= MAX_OUTPUT_SIZE,
    ensures
        match r {
            Ok(out) => zstd_decoded(data@, dict@) == Some(out@) && out@.len() <= capacity,
            Err(_) => zstd_decoded(data@, dict@) matches Some(out) ==> out.len() > capacity,
        },
{
    let mut decompressor = match zstd::bulk::Decompressor::with_dictionary(dict) {
        Ok(decompressor) => decompressor,
        Err(e) => return Err(CodecFailure::Setup(format!("{}", e))),
    };
    match decompressor.decompress(data, capacity) {
        Ok(out) => Ok(out),
        Err(e) => Err(CodecFailure::Run(format!("{}", e))),
    }
}

/// The message of an error: what was being done, then the text of what
/// went wrong.
fn tagged(tag: &str, text: &str) -> (message: String)
    ensures
        message@ == tag@ + text@,
{
    let mut message = tag.to_owned();
    message.append(text);
    message
}

/// The total length of `samples`, if it is one that the codec can take.
fn total_sample_size(samples: &[&[u8]]) -> (r: Option<usize>)
    ensures
        match r {
            Some(total) => total == total_len(samples@, samples@.len() as int) && total
                <= MAX_OUTPUT_SIZE,
            None => total_len(samples@, samples@.len() as int) > MAX_OUTPUT_SIZE,
        },
{
    let mut total: usize = 0;
    let mut i: usize = 0;
    while i < samples.len()
        invariant
            i <= samples@.len(),
            total == total_len(samples@, i as int),
            total <= MAX_OUTPUT_SIZE,
        decreases samples@.len() - i,
    {
        let len = samples[i].len();
        if len > MAX_OUTPUT_SIZE - total {
            proof {
                lemma_total_len_grows(samples@, i + 1, samples@.len() as int);
            }
            return None;
        }
        total += len;
        i += 1;
    }
    Some(total)
}

proof fn lemma_total_len_grows(samples: Seq<&[u8]>, n: int, m: int)
    requires
        0 <= n <= m,
    ensures
        total_len(samples, n) <= total_len(samples, m),
    decreases m - n,
{
    if n < m {
        lemma_total_len_grows(samples, n, m - 1);
    }
}

/// The size that a dictionary asked for with `dict_size` may have at most.
pub open spec fn dict_limit(dict_size: usize) -> nat {
    if dict_size <= MAX_DICT_SIZE {
        dict_size as nat
    } else {
        MAX_DICT_SIZE as nat
    }
}

/// Trains a zstd dictionary of at most `dict_size` bytes, and at most 128 KiB,
/// from `samples`. Fewer than four samples, or more than 2 GiB of them, are
/// refused as invalid data; what zstd refuses is a zstd error.
pub fn train_dictionary(samples: &[&[u8]], dict_size: usize) -> (r: Result<
    Vec<u8>,
    CompressionError,
>)
    ensures
        match r {
            Ok(dict) => samples@.len() >= MIN_SAMPLES && total_len(
                samples@,
                samples@.len() as int,
            ) <= MAX_OUTPUT_SIZE && dict@.len() <= dict_limit(dict_size),
            Err(CompressionError::InvalidData(_)) => samples@.len() < MIN_SAMPLES || total_len(
                samples@,
                samples@.len() as int,
            ) > MAX_OUTPUT_SIZE,
            Err(CompressionError::Zstd(_)) => samples@.len() >= MIN_SAMPLES && total_len(
                samples@,
                samples@.len() as int,
            ) <= MAX_OUTPUT_SIZE,
            Err(_) => false,
        },
{
    if samples.len() < MIN_SAMPLES {
        return Err(
            CompressionError::InvalidData(
                "Need at least 4 samples for dictionary training".to_owned(),
            ),
        );
    }
    if total_sample_size(samples).is_none() {
        return Err(
            CompressionError::InvalidData("Too much data for dictionary training".to_owned()),
        );
    }
    let limit = if dict_size <= MAX_DICT_SIZE {
        dict_size
    } else {
        MAX_DICT_SIZE
    };
    match train_with_zstd(samples, limit) {
        Ok(dict) => Ok(dict),
        Err(e) => Err(
            CompressionError::Zstd(
                tagged("Dictionary training failed: ", io_error_text(&e).as_str()),
            ),
        ),
    }
}

/// Compresses `data` with a dictionary. A frame that comes back reads as
/// `data` again with the same dictionary; data of more than `MAX_INPUT_SIZE`
/// bytes is refused.
pub fn compress_with_dict(data: &[u8], dict: &[u8], level: i32) -> (r: Result<
    Vec<u8>,
    CompressionError,
>)
    ensures
        match r {
            Ok(frame) => data@.len() <= MAX_INPUT_SIZE && zstd_decoded(frame@, dict@) == Some(
                data@,
            ),
            Err(CompressionError::Zstd(_)) => true,
            Err(_) => false,
        },
        data@.len() > MAX_INPUT_SIZE ==> r is Err,
{
    if data.len() > MAX_INPUT_SIZE {
        return Err(CompressionError::Zstd("Compression failed: input too large".to_owned()));
    }
    match compress_with_zstd(data, dict, level) {
        Ok(frame) => Ok(frame),
        Err(CodecFailure::Setup(text)) => Err(
            CompressionError::Zstd(tagged("Failed to create compressor: ", text.as_str())),
        ),
        Err(CodecFailure::Run(text)) => Err(
            CompressionError::Zstd(tagged("Compression failed: ", text.as_str())),
        ),
    }
}

/// Whether `r` is what decompressing `frame` with `dict` into at most
/// `capacity` bytes gives: what the frames stand for, if they stand for
/// something of no more than `capacity` and no more than `MAX_OUTPUT_SIZE`
/// bytes, and an error else.
pub open spec fn decompress_outcome(
    frame: Seq<u8>,
    dict: Seq<u8>,
    capacity: nat,
    r: Result<Vec<u8>, CompressionError>,
) -> bool {
    match zstd_decoded(frame, dict) {
        Some(out) => if out.len() <= capacity && out.len() <= MAX_OUTPUT_SIZE {
            r matches Ok(found) && found@ == out
        } else {
            r is Err
        },
        None => r is Err,
    }
}

/// Decompresses `data` with a dictionary into at most `capacity` bytes, and at
/// most `MAX_OUTPUT_SIZE`. A decompressor that cannot be set up with the
/// dictionary is a zstd error; what it refuses is a decompression error.
pub fn decompress_bounded(data: &[u8], dict: &[u8], capacity: usize) -> (r: Result<
    Vec<u8>,
    CompressionError,
>)
    ensures
        decompress_outcome(data@, dict@, capacity as nat, r),
        match r {
            Ok(_) => true,
            Err(CompressionError::Zstd(_)) => true,
            Err(CompressionError::Decompression(_)) => true,
            Err(_) => false,
        },
{
    let limit = if capacity <= MAX_OUTPUT_SIZE {
        capacity
    } else {
        MAX_OUTPUT_SIZE
    };
    match decompress_with_zstd(data, dict, limit) {
        Ok(out) => Ok(out),
        Err(CodecFailure::Setup(text)) => Err(
            CompressionError::Zstd(tagged("Failed to create decompressor: ", text.as_str())),
        ),
        Err(CodecFailure::Run(text)) => Err(
            CompressionError::Decompression(tagged("Decompression failed: ", text.as_str())),
        ),
    }
}

/// Decompresses `data` with a dictionary, into as much as the codec is ever
/// allowed to produce.
pub fn decompress_with_dict(data: &[u8], dict: &[u8]) -> (r: Result<Vec<u8>, CompressionError>)
    ensures
        decompress_outcome(data@, dict@, MAX_OUTPUT_SIZE as nat, r),
        match r {
            Ok(_) => true,
            Err(CompressionError::Zstd(_)) => true,
            Err(CompressionError::Decompression(_)) => true,
            Err(_) => false,
        },
{
    decompress_bounded(data, dict, MAX_OUTPUT_SIZE)
}

/// Compresses `data` without a dictionary.
pub fn compress(data: &[u8], level: i32) -> (r: Result<Vec<u8>, CompressionError>)
    ensures
        match r {
            Ok(frame) => data@.len() <= MAX_INPUT_SIZE && zstd_decoded(frame@, Seq::empty())
                == Some(data@),
            Err(CompressionError::Zstd(_)) => true,
            Err(_) => false,
        },
        data@.len() > MAX_INPUT_SIZE ==> r is Err,
{
    if data.len() > MAX_INPUT_SIZE {
        return Err(CompressionError::Zstd("Compression failed: input too large".to_owned()));
    }
    let none: Vec<u8> = Vec::new();
    match compress_with_zstd(data, none.as_slice(), level) {
        Ok(frame) => Ok(frame),
        Err(CodecFailure::Setup(text)) => Err(
            CompressionError::Zstd(tagged("Compression failed: ", text.as_str())),
        ),
        Err(CodecFailure::Run(text)) => Err(
            CompressionError::Zstd(tagged("Compression failed: ", text.as_str())),
        ),
    }
}

/// Decompresses `data` without a dictionary, into as much as the codec is
/// ever allowed to produce. What `compress` made reads back as what it was
/// made of.
pub fn decompress(data: &[u8]) -> (r: Result<Vec<u8>, CompressionError>)
    ensures
        decompress_outcome(data@, Seq::empty(), MAX_OUTPUT_SIZE as nat, r),
        match r {
            Ok(_) => true,
            Err(CompressionError::Decompression(_)) => true,
            Err(_) => false,
        },
{
    let none: Vec<u8> = Vec::new();
    match decompress_with_zstd(data, none.as_slice(), MAX_OUTPUT_SIZE) {
        Ok(out) => Ok(out),
        Err(CodecFailure::Setup(text)) => Err(
            CompressionError::Decompression(tagged("Decompression failed: ", text.as_str())),
        ),
        Err(CodecFailure::Run(text)) => Err(
            CompressionError::Decompression(tagged("Decompression failed: ", text.as_str())),
        ),
    }
}

/// A dictionary with what it was trained from.
#[derive(Debug, Clone)]
pub struct TrainedDictionary {
    /// The dictionary itself.
    pub data: Vec<u8>,
    /// How many samples it was trained from.
    pub sample_count: usize,
    /// The total length of those samples.
    pub total_sample_size: usize,
}

impl TrainedDictionary {
    /// Trains a dictionary as `train_dictionary` does and keeps the count and
    /// the total length of the samples with it.
    pub fn train(samples: &[&[u8]], dict_size: usize) -> (r: Result<Self, CompressionError>)
        ensures
            match r {
                Ok(trained) => samples@.len() >= MIN_SAMPLES && trained.data@.len() <= dict_limit(
                    dict_size,
                ) && trained.sample_count == samples@.len() && trained.total_sample_size
                    == total_len(samples@, samples@.len() as int),
                Err(CompressionError::InvalidData(_)) => samples@.len() < MIN_SAMPLES || total_len(
                    samples@,
                    samples@.len() as int,
                ) > MAX_OUTPUT_SIZE,
                Err(CompressionError::Zstd(_)) => samples@.len() >= MIN_SAMPLES && total_len(
                    samples@,
                    samples@.len() as int,
                ) <= MAX_OUTPUT_SIZE,
                Err(_) => false,
            },
    {
        let data = match train_dictionary(samples, dict_size) {
            Ok(data) => data,
            Err(e) => {
                return Err(e);
            },
        };
        match total_sample_size(samples) {
            Some(total) => Ok(
                TrainedDictionary { data, sample_count: samples.len(), total_sample_size: total },
            ),
            None => Err(
                CompressionError::InvalidData("Too much data for dictionary training".to_owned()),
            ),
        }
    }

    /// Compresses `data` with this dictionary.
    pub fn compress(&self, data: &[u8], level: i32) -> (r: Result<Vec<u8>, CompressionError>)
        ensures
            match r {
                Ok(frame) => data@.len() <= MAX_INPUT_SIZE && zstd_decoded(frame@, self.data@)
                    == Some(data@),
                Err(CompressionError::Zstd(_)) => true,
                Err(_) => false,
            },
            data@.len() > MAX_INPUT_SIZE ==> r is Err,
    {
        compress_with_dict(data, self.data.as_slice(), level)
    }

    /// Decompresses `data` with this dictionary.
    pub fn decompress(&self, data: &[u8]) -> (r: Result<Vec<u8>, CompressionError>)
        ensures
            decompress_outcome(data@, self.data@, MAX_OUTPUT_SIZE as nat, r),
            match r {
                Ok(_) => true,
                Err(CompressionError::Zstd(_)) => true,
                Err(CompressionError::Decompression(_)) => true,
                Err(_) => false,
            },
    {
        decompress_with_dict(data, self.data.as_slice())
    }
}

/// What was compressed reads back: a frame that stands for no more than
/// `MAX_INPUT_SIZE` bytes, as every frame does that `compress`,
/// `compress_with_dict` or `TrainedDictionary::compress` returns, is
/// decompressed with the same dictionary to what it stands for.
pub proof fn lemma_compressed_reads_back(
    data: Seq<u8>,
    frame: Seq<u8>,
    dict: Seq<u8>,
    r: Result<Vec<u8>, CompressionError>,
)
    requires
        data.len() <= MAX_INPUT_SIZE,
        zstd_decoded(frame, dict) == Some(data),
        decompress_outcome(frame, dict, MAX_OUTPUT_SIZE as nat, r),
    ensures
        r matches Ok(out) && out@ == data,
{
}

} // verus!
