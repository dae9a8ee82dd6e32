use pbin::dict::{
    compress, compress_with_dict, decompress, decompress_bounded, decompress_with_dict,
    train_dictionary, TrainedDictionary, DEFAULT_DICT_SIZE, MAX_DICT_SIZE, MIN_SAMPLES,
};
use pbin::error::CompressionError;

fn generate_sample(seed: u8) -> Vec<u8> {
    // Generate pseudo-binary data with common patterns
    let mut data = Vec::with_capacity(4096);

    // Common header pattern
    data.extend_from_slice(b"\x7FELF\x02\x01\x01\x00");
    data.extend_from_slice(&[0; 8]);

    // Variable content based on seed
    for i in 0..500 {
        data.push(((i as u8).wrapping_mul(seed)).wrapping_add(seed));
    }

    // Common footer pattern
    data.extend_from_slice(b"\x00\x00\x00\x00.text\x00.data\x00");

    data
}

#[test]
fn test_compress_decompress() {
    let data = b"Hello, World! This is test data for compression.";

    let compressed = compress(data, 3).unwrap();
    let decompressed = decompress(&compressed).unwrap();

    assert_eq!(&decompressed, data);
}

#[test]
fn test_dictionary_training() {
    let samples: Vec<Vec<u8>> = (0..8).map(|i| generate_sample(i)).collect();
    let sample_refs: Vec<&[u8]> = samples.iter().map(|s| s.as_slice()).collect();

    let dict = TrainedDictionary::train(&sample_refs, DEFAULT_DICT_SIZE).unwrap();

    assert!(!dict.data.is_empty());
    assert!(dict.data.len() <= DEFAULT_DICT_SIZE);
}

#[test]
fn test_dictionary_compression() {
    let samples: Vec<Vec<u8>> = (0..8).map(|i| generate_sample(i)).collect();
    let sample_refs: Vec<&[u8]> = samples.iter().map(|s| s.as_slice()).collect();

    let dict = TrainedDictionary::train(&sample_refs, DEFAULT_DICT_SIZE).unwrap();

    // Compress a new sample using the dictionary
    let new_sample = generate_sample(100);
    let compressed = dict.compress(&new_sample, 3).unwrap();
    let decompressed = dict.decompress(&compressed).unwrap();

    assert_eq!(decompressed, new_sample);

    // Dictionary compression should be smaller than without
    let without_dict = compress(&new_sample, 3).unwrap();
    // Note: For small/simple test data, dictionary might not help much
    assert!(compressed.len() > 0);
    println!(
        "With dict: {} bytes, without: {} bytes",
        compressed.len(),
        without_dict.len()
    );
}

#[test]
fn test_insufficient_samples() {
    let samples: Vec<Vec<u8>> = (0..2).map(|i| generate_sample(i)).collect();
    let sample_refs: Vec<&[u8]> = samples.iter().map(|s| s.as_slice()).collect();

    let result = train_dictionary(&sample_refs, DEFAULT_DICT_SIZE);
    assert!(result.is_err());
}

#[test]
fn too_few_samples_are_invalid_data() {
    let samples: Vec<Vec<u8>> = (0..3).map(|i| generate_sample(i)).collect();
    let sample_refs: Vec<&[u8]> = samples.iter().map(|s| s.as_slice()).collect();
    assert_eq!(MIN_SAMPLES, 4);
    match train_dictionary(&sample_refs, DEFAULT_DICT_SIZE) {
        Err(CompressionError::InvalidData(_)) => {}
        other => panic!("unexpected {:?}", other),
    }
    match TrainedDictionary::train(&sample_refs, DEFAULT_DICT_SIZE) {
        Err(CompressionError::InvalidData(_)) => {}
        other => panic!("unexpected {:?}", other.map(|d| d.data.len())),
    }
}

#[test]
fn samples_that_zstd_cannot_train_on_are_a_zstd_error() {
    let samples: Vec<Vec<u8>> = vec![vec![], vec![], vec![], vec![]];
    let sample_refs: Vec<&[u8]> = samples.iter().map(|s| s.as_slice()).collect();
    match train_dictionary(&sample_refs, DEFAULT_DICT_SIZE) {
        Err(CompressionError::Zstd(message)) => {
            assert!(message.starts_with("Dictionary training failed: "))
        }
        other => panic!("unexpected {:?}", other),
    }
}

#[test]
fn trained_dictionary_keeps_its_metadata() {
    let samples: Vec<Vec<u8>> = (0..8).map(|i| generate_sample(i)).collect();
    let sample_refs: Vec<&[u8]> = samples.iter().map(|s| s.as_slice()).collect();
    let dict = TrainedDictionary::train(&sample_refs, DEFAULT_DICT_SIZE).unwrap();
    assert_eq!(dict.sample_count, 8);
    assert_eq!(dict.total_sample_size, samples.iter().map(|s| s.len()).sum::<usize>());
    assert_eq!(DEFAULT_DICT_SIZE, 32 * 1024);
    assert_eq!(MAX_DICT_SIZE, 128 * 1024);
}

#[test]
fn dictionary_size_is_capped() {
    let samples: Vec<Vec<u8>> = (0..8).map(|i| generate_sample(i)).collect();
    let sample_refs: Vec<&[u8]> = samples.iter().map(|s| s.as_slice()).collect();
    let small = train_dictionary(&sample_refs, 512).unwrap();
    assert!(small.len() <= 512);
    let large = train_dictionary(&sample_refs, 10 * MAX_DICT_SIZE).unwrap();
    assert!(large.len() <= MAX_DICT_SIZE);
}

#[test]
fn compressed_data_differs_and_reads_back() {
    let data: Vec<u8> = (0..4000).map(|i| (i % 13) as u8).collect();
    let frame = compress(&data, 3).unwrap();
    assert_ne!(frame, data);
    assert!(frame.len() < data.len());
    assert_eq!(decompress_bounded(&frame, &[], data.len()).unwrap(), data);
    let dict = b"0123456789abcdefghijklmnopqrstuvwxyz".to_vec();
    let with = compress_with_dict(&data, &dict, 19).unwrap();
    assert_eq!(decompress_bounded(&with, &dict, data.len()).unwrap(), data);
}

#[test]
fn every_level_is_accepted() {
    let data = b"levels outside the range of zstd are clamped by it".to_vec();
    for level in [-1000, -1, 0, 1, 3, 12, 19, 22, 1000] {
        let frame = compress(&data, level).unwrap();
        assert_eq!(decompress(&frame).unwrap(), data);
    }
}

#[test]
fn data_that_compresses_well_reads_back() {
    let data = vec![0u8; 100_000];
    let frame = compress(&data, 3).unwrap();
    assert!(frame.len() * 10 < data.len());
    assert_eq!(decompress(&frame).unwrap(), data);
    assert_eq!(decompress_with_dict(&frame, &[]).unwrap(), data);
    let samples: Vec<Vec<u8>> = (0..8).map(|i| generate_sample(i)).collect();
    let sample_refs: Vec<&[u8]> = samples.iter().map(|s| s.as_slice()).collect();
    let dict = TrainedDictionary::train(&sample_refs, DEFAULT_DICT_SIZE).unwrap();
    let frame = dict.compress(&data, 19).unwrap();
    assert_eq!(dict.decompress(&frame).unwrap(), data);
}

#[test]
fn output_is_bounded_where_a_bound_is_given() {
    let data = vec![0u8; 100_000];
    let frame = compress(&data, 3).unwrap();
    match decompress_bounded(&frame, &[], 99_999) {
        Err(CompressionError::Decompression(_)) => {}
        other => panic!("unexpected {:?}", other.map(|d| d.len())),
    }
    assert_eq!(decompress_bounded(&frame, &[], 100_000).unwrap(), data);
    assert_eq!(decompress_bounded(&frame, &[], usize::MAX).unwrap(), data);
}

#[test]
fn garbage_does_not_decompress() {
    match decompress(b"this is no zstd frame") {
        Err(CompressionError::Decompression(message)) => {
            assert!(message.starts_with("Decompression failed: "))
        }
        other => panic!("unexpected {:?}", other),
    }
}

#[test]
fn empty_data_round_trips() {
    let frame = compress(&[], 3).unwrap();
    assert!(!frame.is_empty());
    assert_eq!(decompress(&frame).unwrap(), Vec::<u8>::new());
}
