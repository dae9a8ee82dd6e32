use pbin::error::Error;
use pbin::header::{
    find_payload_marker, PbinHeader, HEADER_SIZE, PAYLOAD_MARKER, PBIN_MAGIC, PBIN_VERSION,
};
use pbin::manifest::Compression;

#[test]
fn constants_are_those_of_the_format() {
    assert_eq!(&PBIN_MAGIC, b"PBIN");
    assert_eq!(PBIN_VERSION, 1);
    assert_eq!(HEADER_SIZE, 64);
    assert_eq!(&PAYLOAD_MARKER, b"__PBIN_PAYLOAD__");
}

#[test]
fn header_bytes_are_laid_out_little_endian() {
    let header = PbinHeader::new(Compression::Zstd, 3, 0x0102_0304);
    let bytes = header.to_bytes();
    let mut expected = [0u8; 64];
    expected[..4].copy_from_slice(b"PBIN");
    expected[4] = 1;
    expected[5] = 0;
    expected[6] = 1;
    expected[7] = 3;
    expected[8..12].copy_from_slice(&[0x04, 0x03, 0x02, 0x01]);
    assert_eq!(bytes, expected);
}

#[test]
fn header_round_trips() {
    for compression in [Compression::Uncompressed, Compression::Zstd, Compression::Lz4] {
        let mut header = PbinHeader::new(compression, 255, u32::MAX);
        header.flags = 0xA1B2_C3D4;
        let bytes = header.to_bytes();
        assert_eq!(&bytes[12..16], &[0xD4, 0xC3, 0xB2, 0xA1]);
        let mut longer = bytes.to_vec();
        longer.extend_from_slice(b"manifest follows");
        let read = PbinHeader::from_bytes(&longer).unwrap();
        assert_eq!(read.magic, PBIN_MAGIC);
        assert_eq!(read.version, 1);
        assert_eq!(read.compression, compression);
        assert_eq!(read.entry_count, 255);
        assert_eq!(read.manifest_size, u32::MAX);
        assert_eq!(read.flags, 0xA1B2_C3D4);
    }
}

#[test]
fn reserved_bytes_are_ignored_on_read() {
    let mut bytes = PbinHeader::new(Compression::Zstd, 1, 2).to_bytes();
    bytes[16] = 0xFF;
    bytes[63] = 0xFF;
    let read = PbinHeader::from_bytes(&bytes).unwrap();
    assert_eq!(read.manifest_size, 2);
}

#[test]
fn short_input_is_refused() {
    let bytes = PbinHeader::new(Compression::Zstd, 1, 2).to_bytes();
    match PbinHeader::from_bytes(&bytes[..63]) {
        Err(Error::HeaderTooShort { expected, actual }) => {
            assert_eq!(expected, 64);
            assert_eq!(actual, 63);
        }
        other => panic!("unexpected {:?}", other),
    }
    match PbinHeader::from_bytes(&[]) {
        Err(Error::HeaderTooShort { expected: 64, actual: 0 }) => {}
        other => panic!("unexpected {:?}", other),
    }
}

#[test]
fn bad_magic_is_refused_before_anything_else() {
    let mut bytes = PbinHeader::new(Compression::Zstd, 1, 2).to_bytes();
    bytes[3] = b'X';
    bytes[4] = 9;
    bytes[6] = 9;
    match PbinHeader::from_bytes(&bytes) {
        Err(Error::InvalidMagic(found)) => assert_eq!(&found, b"PBIX"),
        other => panic!("unexpected {:?}", other),
    }
}

#[test]
fn other_versions_are_refused() {
    let mut bytes = PbinHeader::new(Compression::Zstd, 1, 2).to_bytes();
    bytes[4] = 2;
    bytes[5] = 1;
    bytes[6] = 9;
    match PbinHeader::from_bytes(&bytes) {
        Err(Error::UnsupportedVersion(v)) => assert_eq!(v, 0x0102),
        other => panic!("unexpected {:?}", other),
    }
}

#[test]
fn unknown_compression_is_refused() {
    let mut bytes = PbinHeader::new(Compression::Zstd, 1, 2).to_bytes();
    bytes[6] = 3;
    match PbinHeader::from_bytes(&bytes) {
        Err(Error::UnknownCompression(b)) => assert_eq!(b, 3),
        other => panic!("unexpected {:?}", other),
    }
}

#[test]
fn marker_is_found_where_it_stands_last() {
    assert_eq!(find_payload_marker(b""), None);
    assert_eq!(find_payload_marker(b"__PBIN_PAYLOAD_"), None);
    assert_eq!(find_payload_marker(b"__PBIN_PAYLOAD__"), Some(0));
    assert_eq!(find_payload_marker(b"x__PBIN_PAYLOAD__y"), Some(1));
    let mut file = b"grep __PBIN_PAYLOAD__ \"$0\"\nexit\n__PBIN_PAYLOAD__".to_vec();
    let at = file.len() - 16;
    file.extend_from_slice(b"PBIN and the rest");
    assert_eq!(find_payload_marker(&file), Some(at));
    assert_eq!(find_payload_marker(b"no marker in here at all, none"), None);
    // overlapping candidates
    assert_eq!(find_payload_marker(b"__PBIN_PAYLOAD____PBIN_PAYLOAD__"), Some(16));
}
