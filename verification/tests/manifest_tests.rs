use pbin::error::Error;
use pbin::manifest::{hex_decode, hex_encode, Compression, PbinEntry, PbinManifest};
use pbin::target::Target;

#[test]
fn test_hex_roundtrip() {
    let bytes: [u8; 32] = [
        0x01, 0x23, 0x45, 0x67, 0x89, 0xab, 0xcd, 0xef, 0x01, 0x23, 0x45, 0x67, 0x89, 0xab, 0xcd,
        0xef, 0x01, 0x23, 0x45, 0x67, 0x89, 0xab, 0xcd, 0xef, 0x01, 0x23, 0x45, 0x67, 0x89, 0xab,
        0xcd, 0xef,
    ];
    let hex = hex_encode(&bytes);
    let decoded = hex_decode(&hex).unwrap();
    assert_eq!(bytes, decoded);
}

#[test]
fn hex_is_lowercase_with_the_high_digit_first() {
    assert_eq!(hex_encode(&[0x00, 0x0f, 0xf0, 0xAB, 0x9c]), "000ff0ab9c");
    assert_eq!(hex_encode(&[]), "");
    let all: Vec<u8> = (0..=255).collect();
    let text = hex_encode(&all);
    assert_eq!(text.len(), 512);
    assert_eq!(&text[..8], "00010203");
    assert_eq!(&text[508..], "feff");
}

#[test]
fn hex_decode_reads_both_cases() {
    let lower = "00112233445566778899aabbccddeeff00112233445566778899aabbccddeeff";
    let upper = "00112233445566778899AABBCCDDEEFF00112233445566778899AABBCCDDEEFF";
    let expected: Vec<u8> = [
        0x00, 0x11, 0x22, 0x33, 0x44, 0x55, 0x66, 0x77, 0x88, 0x99, 0xaa, 0xbb, 0xcc, 0xdd, 0xee,
        0xff,
    ]
    .repeat(2);
    assert_eq!(hex_decode(lower).unwrap().to_vec(), expected);
    assert_eq!(hex_decode(upper).unwrap().to_vec(), expected);
}

#[test]
fn hex_decode_refuses_what_is_no_checksum() {
    for bad in [
        "",
        "abc",
        "00112233445566778899aabbccddeeff00112233445566778899aabbccddeef",
        "00112233445566778899aabbccddeeff00112233445566778899aabbccddeefff",
        "g0112233445566778899aabbccddeeff00112233445566778899aabbccddeeff",
        "00112233445566778899aabbccddeeff00112233445566778899aabbccddee+f",
        "00112233445566778899aabbccddeeff00112233445566778899aabbccddee f",
    ] {
        match hex_decode(bad) {
            Err(Error::ChecksumMismatch { expected, .. }) => {
                if bad.len() == 64 {
                    assert_eq!(expected, "valid hex");
                } else {
                    assert_eq!(expected, "64 hex characters");
                }
            }
            other => panic!("unexpected {:?} for {:?}", other, bad),
        }
    }
    match hex_decode("abc") {
        Err(Error::ChecksumMismatch { actual, .. }) => assert_eq!(actual, "3 characters"),
        other => panic!("unexpected {:?}", other),
    }
}

#[test]
fn compression_bytes() {
    assert_eq!(Compression::Uncompressed.as_byte(), 0);
    assert_eq!(Compression::Zstd.as_byte(), 1);
    assert_eq!(Compression::Lz4.as_byte(), 2);
    for c in [Compression::Uncompressed, Compression::Zstd, Compression::Lz4] {
        assert_eq!(Compression::from_byte(c.as_byte()).unwrap(), c);
    }
    for b in 3..=255u8 {
        match Compression::from_byte(b) {
            Err(Error::UnknownCompression(found)) => assert_eq!(found, b),
            other => panic!("unexpected {:?}", other),
        }
    }
    assert_eq!(Compression::default(), Compression::Zstd);
}

#[test]
fn entry_holds_what_it_was_made_with() {
    let entry = PbinEntry::new(Target::LinuxX86_64, 1000, 500, 1200, [0xab; 32]);
    assert_eq!(entry.target, "linux-x86_64");
    assert_eq!(entry.offset, 1000);
    assert_eq!(entry.compressed_size, 500);
    assert_eq!(entry.uncompressed_size, 1200);
    assert_eq!(entry.checksum, "ab".repeat(32));
    assert_eq!(entry.delta_reference, None);
    assert_eq!(entry.patch_size, 0);
    assert!(!entry.bcj_filtered);
    assert_eq!(entry.target().unwrap(), Target::LinuxX86_64);
    assert_eq!(entry.checksum_bytes().unwrap(), [0xab; 32]);
}

#[test]
fn entry_with_a_target_that_does_not_exist() {
    let mut entry = PbinEntry::new(Target::LinuxX86_64, 0, 0, 0, [0; 32]);
    entry.target = "plan9-pdp11".to_string();
    match entry.target() {
        Err(Error::InvalidTarget(name)) => assert_eq!(name, "plan9-pdp11"),
        other => panic!("unexpected {:?}", other),
    }
}

#[test]
fn checksum_is_the_blake3_digest() {
    // BLAKE3 of the empty input
    let empty: [u8; 32] = [
        0xaf, 0x13, 0x49, 0xb9, 0xf5, 0xf9, 0xa1, 0xa6, 0xa0, 0x40, 0x4d, 0xea, 0x36, 0xdc, 0xc9,
        0x49, 0x9b, 0xcb, 0x25, 0xc9, 0xad, 0xc1, 0x12, 0xb7, 0xcc, 0x9a, 0x93, 0xca, 0xe4, 0x1f,
        0x32, 0x62,
    ];
    let entry = PbinEntry::new(Target::LinuxX86_64, 0, 0, 0, empty);
    assert!(entry.verify_checksum(b"").unwrap());
    assert!(!entry.verify_checksum(b"a").unwrap());
    let digest: [u8; 32] = blake3::hash(b"some payload").into();
    let entry = PbinEntry::new(Target::DarwinAarch64, 0, 0, 12, digest);
    assert!(entry.verify_checksum(b"some payload").unwrap());
    assert!(!entry.verify_checksum(b"some payloae").unwrap());
    // a digest is not its input
    let entry = PbinEntry::new(Target::DarwinAarch64, 0, 0, 32, [7; 32]);
    assert!(!entry.verify_checksum(&[7; 32]).unwrap());
}

#[test]
fn malformed_checksum_is_an_error() {
    let mut entry = PbinEntry::new(Target::LinuxX86_64, 0, 0, 0, [0; 32]);
    entry.checksum = "xyz".to_string();
    assert!(matches!(entry.checksum_bytes(), Err(Error::ChecksumMismatch { .. })));
    assert!(matches!(entry.verify_checksum(b""), Err(Error::ChecksumMismatch { .. })));
}

#[test]
fn manifest_finds_the_first_entry_of_a_target() {
    let mut manifest = PbinManifest::new("test".to_string(), "1.0.0".to_string());
    assert_eq!(manifest.name, "test");
    assert_eq!(manifest.version, "1.0.0");
    assert!(manifest.entries.is_empty());
    assert_eq!(manifest.dictionary_size, 0);
    assert!(manifest.find_entry(Target::LinuxX86_64).is_none());
    manifest.add_entry(PbinEntry::new(Target::LinuxX86_64, 1, 10, 10, [0; 32]));
    manifest.add_entry(PbinEntry::new(Target::DarwinAarch64, 2, 20, 20, [0; 32]));
    manifest.add_entry(PbinEntry::new(Target::LinuxX86_64, 3, 30, 30, [0; 32]));
    assert_eq!(manifest.entries.len(), 3);
    assert_eq!(manifest.find_entry(Target::LinuxX86_64).unwrap().offset, 1);
    assert_eq!(manifest.find_entry(Target::DarwinAarch64).unwrap().offset, 2);
    assert!(manifest.find_entry(Target::WasiWasm32).is_none());
}

#[test]
fn manifest_finds_the_entry_of_the_host() {
    let mut manifest = PbinManifest::new("test".to_string(), "1.0.0".to_string());
    manifest.add_entry(PbinEntry::new(Target::LinuxX86_64, 1, 10, 10, [0; 32]));
    assert_eq!(manifest.find_current_entry(Some(Target::LinuxX86_64)).unwrap().offset, 1);
    match manifest.find_current_entry(None) {
        Err(Error::UnsupportedPlatform) => {}
        other => panic!("unexpected {:?}", other),
    }
    match manifest.find_current_entry(Some(Target::IosAarch64)) {
        Err(Error::TargetNotFound(name)) => assert_eq!(name, "ios-aarch64"),
        other => panic!("unexpected {:?}", other),
    }
}
