use pbin::error::CompressionError;
use pbin::segment::{
    collect_segments, estimate_savings, find_duplicates, ParsedBinary, RawSection, Segment,
    ELF_EXECUTABLE,
};

#[test]
fn test_segment_hash() {
    let data1 = vec![1, 2, 3, 4, 5];
    let data2 = vec![1, 2, 3, 4, 5];
    let data3 = vec![1, 2, 3, 4, 6];

    let hash1: [u8; 32] = blake3::hash(&data1).into();
    let hash2: [u8; 32] = blake3::hash(&data2).into();
    let hash3: [u8; 32] = blake3::hash(&data3).into();

    assert_eq!(hash1, hash2);
    assert_ne!(hash1, hash3);
}

fn mock(target: &str, segments: Vec<Segment>) -> ParsedBinary {
    ParsedBinary {
        target: target.to_string(),
        arch: "x86_64".to_string(),
        segments,
        data: vec![0; 150],
    }
}

fn seg(name: &str, offset: usize, size: usize, executable: bool, hash: u8) -> Segment {
    Segment { name: name.to_string(), offset, size, executable, hash: [hash; 32] }
}

#[test]
fn test_find_duplicates() {
    // Create mock binaries with some duplicate segments
    let binaries = vec![
        ParsedBinary {
            target: "linux-x86_64".to_string(),
            arch: "x86_64".to_string(),
            segments: vec![
                Segment {
                    name: ".text".to_string(),
                    offset: 0,
                    size: 100,
                    executable: true,
                    hash: [1; 32],
                },
                Segment {
                    name: ".data".to_string(),
                    offset: 100,
                    size: 50,
                    executable: false,
                    hash: [2; 32], // Same as darwin
                },
            ],
            data: vec![0; 150],
        },
        ParsedBinary {
            target: "darwin-x86_64".to_string(),
            arch: "x86_64".to_string(),
            segments: vec![
                Segment {
                    name: "__TEXT".to_string(),
                    offset: 0,
                    size: 100,
                    executable: true,
                    hash: [3; 32], // Different
                },
                Segment {
                    name: "__DATA".to_string(),
                    offset: 100,
                    size: 50,
                    executable: false,
                    hash: [2; 32], // Same as linux
                },
            ],
            data: vec![0; 150],
        },
    ];

    let duplicates = find_duplicates(&binaries);

    // Should find one duplicate (the .data/__DATA segment with hash [2; 32])
    assert_eq!(duplicates.len(), 1);
    assert!(duplicates.contains_key(&[2; 32]));
}

#[test]
fn duplicates_list_every_place_in_order() {
    let binaries = vec![
        mock("a", vec![seg("s0", 0, 10, true, 1), seg("s1", 10, 20, false, 2), seg("s2", 30, 5, false, 1)]),
        mock("b", vec![seg("t0", 0, 7, true, 3), seg("t1", 7, 20, false, 2)]),
        mock("c", vec![seg("u0", 0, 11, true, 1), seg("u1", 11, 4, false, 4)]),
    ];
    let duplicates = find_duplicates(&binaries);
    assert_eq!(duplicates.len(), 2);
    assert!(!duplicates.is_empty());
    assert_eq!(duplicates.sets[0].hash, [1; 32]);
    assert_eq!(duplicates.sets[0].locations, vec![(0, 0), (0, 2), (2, 0)]);
    assert_eq!(duplicates.sets[1].hash, [2; 32]);
    assert_eq!(duplicates.sets[1].locations, vec![(0, 1), (1, 1)]);
    assert_eq!(duplicates.get(&[2; 32]), Some(&vec![(0, 1), (1, 1)]));
    assert_eq!(duplicates.get(&[3; 32]), None);
    assert!(!duplicates.contains_key(&[3; 32]));
    assert!(!duplicates.contains_key(&[4; 32]));
    // later occurrences: s2 (5), t1 (20), u0 (11)
    assert_eq!(estimate_savings(&binaries), 36);
}

#[test]
fn nothing_in_common_saves_nothing() {
    let binaries = vec![
        mock("a", vec![seg("s0", 0, 10, true, 1)]),
        mock("b", vec![seg("t0", 0, 10, true, 2)]),
    ];
    assert!(find_duplicates(&binaries).is_empty());
    assert_eq!(estimate_savings(&binaries), 0);
    let none: Vec<ParsedBinary> = Vec::new();
    assert_eq!(find_duplicates(&none).len(), 0);
    assert_eq!(estimate_savings(&none), 0);
}

#[test]
fn savings_saturate() {
    let binaries = vec![mock(
        "a",
        vec![
            seg("s0", 0, 1, true, 1),
            seg("s1", 0, usize::MAX, true, 1),
            seg("s2", 0, 5, true, 1),
        ],
    )];
    assert_eq!(estimate_savings(&binaries), usize::MAX);
}

#[test]
fn executable_segments_are_filtered_in_order() {
    let binary = mock(
        "a",
        vec![seg("s0", 0, 10, true, 1), seg("s1", 10, 20, false, 2), seg("s2", 30, 5, true, 3)],
    );
    let found = binary.executable_segments();
    let names: Vec<&str> = found.iter().map(|s| s.name.as_str()).collect();
    assert_eq!(names, vec!["s0", "s2"]);
}

#[test]
fn segment_data_is_clipped_to_the_binary() {
    let mut binary = mock("a", vec![]);
    binary.data = (0..150).map(|i| i as u8).collect();
    assert_eq!(binary.segment_data(&seg("in", 10, 5, false, 0)), &[10, 11, 12, 13, 14]);
    assert_eq!(binary.segment_data(&seg("over", 148, 5, false, 0)), &[148, 149]);
    assert_eq!(binary.segment_data(&seg("out", 200, 5, false, 0)), &[] as &[u8]);
    assert_eq!(binary.segment_data(&seg("huge", 149, usize::MAX, false, 0)), &[149]);
}

fn raw(name: Option<&str>, offset: u64, size: u64, flags: u64) -> RawSection {
    RawSection { name: name.map(|s| s.to_string()), offset, size, flags }
}

#[test]
fn sections_become_segments_when_they_fit() {
    let data: Vec<u8> = (0..100).map(|i| i as u8).collect();
    let sections = vec![
        raw(Some(".text"), 0, 10, 0x6),
        raw(Some(".empty"), 10, 0, 0x6),
        raw(None, 90, 10, 0x3),
        raw(Some(".beyond"), 91, 10, 0x4),
        raw(Some(".far"), u64::MAX, 2, 0x4),
        raw(Some(".wide"), 1, u64::MAX, 0x4),
    ];
    let segments = collect_segments(&data, ELF_EXECUTABLE, &sections);
    assert_eq!(segments.len(), 2);
    assert_eq!(segments[0].name, ".text");
    assert_eq!((segments[0].offset, segments[0].size), (0, 10));
    assert!(segments[0].executable);
    let expected: [u8; 32] = blake3::hash(&data[0..10]).into();
    assert_eq!(segments[0].hash, expected);
    assert_eq!(segments[1].name, "");
    assert_eq!((segments[1].offset, segments[1].size), (90, 10));
    assert!(!segments[1].executable);
    let expected: [u8; 32] = blake3::hash(&data[90..100]).into();
    assert_eq!(segments[1].hash, expected);
}

fn put16(v: &mut Vec<u8>, x: u16) {
    v.extend_from_slice(&x.to_le_bytes());
}

fn put32(v: &mut Vec<u8>, x: u32) {
    v.extend_from_slice(&x.to_le_bytes());
}

fn put64(v: &mut Vec<u8>, x: u64) {
    v.extend_from_slice(&x.to_le_bytes());
}

fn elf_section(v: &mut Vec<u8>, name: u32, kind: u32, flags: u64, offset: u64, size: u64) {
    put32(v, name);
    put32(v, kind);
    put64(v, flags);
    put64(v, 0);
    put64(v, offset);
    put64(v, size);
    put32(v, 0);
    put32(v, 0);
    put64(v, 1);
    put64(v, 0);
}

fn small_elf(machine: u16) -> Vec<u8> {
    let mut v = Vec::new();
    v.extend_from_slice(&[0x7f, b'E', b'L', b'F', 2, 1, 1, 0]);
    v.extend_from_slice(&[0; 8]);
    put16(&mut v, 2);
    put16(&mut v, machine);
    put32(&mut v, 1);
    put64(&mut v, 0);
    put64(&mut v, 0);
    put64(&mut v, 112);
    put32(&mut v, 0);
    put16(&mut v, 64);
    put16(&mut v, 56);
    put16(&mut v, 0);
    put16(&mut v, 64);
    put16(&mut v, 5);
    put16(&mut v, 3);
    assert_eq!(v.len(), 64);
    v.extend_from_slice(&[0x90; 16]);
    v.extend_from_slice(&[1, 2, 3, 4, 5, 6, 7, 8]);
    v.extend_from_slice(b"\0.text\0.data\0.shstrtab\0");
    v.push(0);
    assert_eq!(v.len(), 112);
    elf_section(&mut v, 0, 0, 0, 0, 0);
    elf_section(&mut v, 1, 1, 0x6, 64, 16);
    elf_section(&mut v, 7, 1, 0x3, 80, 8);
    elf_section(&mut v, 13, 3, 0, 88, 23);
    elf_section(&mut v, 7, 8, 0x3, 400, 100);
    v
}

#[test]
fn elf_sections_are_read() {
    let data = small_elf(62);
    let parsed = ParsedBinary::parse("linux-x86_64", data.clone()).unwrap();
    assert_eq!(parsed.target, "linux-x86_64");
    assert_eq!(parsed.arch, "x86_64");
    assert_eq!(parsed.data, data);
    let names: Vec<&str> = parsed.segments.iter().map(|s| s.name.as_str()).collect();
    assert_eq!(names, vec![".text", ".data", ".shstrtab"]);
    assert_eq!((parsed.segments[0].offset, parsed.segments[0].size), (64, 16));
    assert!(parsed.segments[0].executable);
    assert!(!parsed.segments[1].executable);
    let expected: [u8; 32] = blake3::hash(&[0x90; 16]).into();
    assert_eq!(parsed.segments[0].hash, expected);
    assert_eq!(parsed.segment_data(&parsed.segments[1]), &[1, 2, 3, 4, 5, 6, 7, 8]);
    assert_eq!(parsed.executable_segments().len(), 1);
}

#[test]
fn elf_machines_are_named() {
    for (machine, arch) in [
        (62u16, "x86_64"),
        (3, "i686"),
        (183, "aarch64"),
        (40, "arm"),
        (243, "riscv64"),
        (21, "ppc64"),
        (8, "unknown"),
    ] {
        let parsed = ParsedBinary::parse("t", small_elf(machine)).unwrap();
        assert_eq!(parsed.arch, arch);
    }
}

fn name16(v: &mut Vec<u8>, name: &str) {
    let mut field = [0u8; 16];
    field[..name.len()].copy_from_slice(name.as_bytes());
    v.extend_from_slice(&field);
}

fn small_macho(cpu: u32) -> Vec<u8> {
    let mut v = Vec::new();
    put32(&mut v, 0xfeed_facf);
    put32(&mut v, cpu);
    put32(&mut v, 3);
    put32(&mut v, 2);
    put32(&mut v, 1);
    put32(&mut v, 232);
    put32(&mut v, 0);
    put32(&mut v, 0);
    // LC_SEGMENT_64 with two sections
    put32(&mut v, 0x19);
    put32(&mut v, 232);
    name16(&mut v, "__TEXT");
    put64(&mut v, 0);
    put64(&mut v, 0x1000);
    put64(&mut v, 0);
    put64(&mut v, 288);
    put32(&mut v, 7);
    put32(&mut v, 5);
    put32(&mut v, 2);
    put32(&mut v, 0);
    for (name, offset, size, flags) in
        [("__text", 264u32, 16u64, 0x8000_0400u32), ("__const", 280, 8, 0)]
    {
        name16(&mut v, name);
        name16(&mut v, "__TEXT");
        put64(&mut v, offset as u64);
        put64(&mut v, size);
        put32(&mut v, offset);
        put32(&mut v, 0);
        put32(&mut v, 0);
        put32(&mut v, 0);
        put32(&mut v, flags);
        put32(&mut v, 0);
        put32(&mut v, 0);
        put32(&mut v, 0);
    }
    assert_eq!(v.len(), 264);
    v.extend_from_slice(&[0xAA; 16]);
    v.extend_from_slice(&[9, 8, 7, 6, 5, 4, 3, 2]);
    v
}

#[test]
fn macho_sections_are_read() {
    let data = small_macho(0x0100_000C);
    let parsed = ParsedBinary::parse("darwin-aarch64", data).unwrap();
    assert_eq!(parsed.arch, "aarch64");
    let names: Vec<&str> = parsed.segments.iter().map(|s| s.name.as_str()).collect();
    assert_eq!(names, vec!["__text", "__const"]);
    assert!(parsed.segments[0].executable);
    assert!(!parsed.segments[1].executable);
    assert_eq!((parsed.segments[1].offset, parsed.segments[1].size), (280, 8));
    let expected: [u8; 32] = blake3::hash(&[0xAA; 16]).into();
    assert_eq!(parsed.segments[0].hash, expected);
    assert_eq!(ParsedBinary::parse("t", small_macho(0x0100_0007)).unwrap().arch, "x86_64");
    assert_eq!(ParsedBinary::parse("t", small_macho(12)).unwrap().arch, "arm");
    assert_eq!(ParsedBinary::parse("t", small_macho(18)).unwrap().arch, "unknown");
}

#[test]
fn fat_macho_is_read_by_its_first_slice() {
    let thin = small_macho(0x0100_0007);
    let mut v = Vec::new();
    v.extend_from_slice(&0xcafe_babeu32.to_be_bytes());
    v.extend_from_slice(&1u32.to_be_bytes());
    v.extend_from_slice(&0x0100_0007u32.to_be_bytes());
    v.extend_from_slice(&3u32.to_be_bytes());
    v.extend_from_slice(&32u32.to_be_bytes());
    v.extend_from_slice(&(thin.len() as u32).to_be_bytes());
    v.extend_from_slice(&0u32.to_be_bytes());
    v.extend_from_slice(&[0; 4]);
    assert_eq!(v.len(), 32);
    v.extend_from_slice(&thin);
    let parsed = ParsedBinary::parse("darwin-x86_64", v).unwrap();
    assert_eq!(parsed.arch, "x86_64");
    let names: Vec<&str> = parsed.segments.iter().map(|s| s.name.as_str()).collect();
    assert_eq!(names, vec!["__text", "__const"]);
    // offsets are those within the slice
    assert_eq!(parsed.segments[0].offset, 264);
}

fn small_pe(wide: bool) -> Vec<u8> {
    let optional: u16 = if wide { 240 } else { 224 };
    let mut v = Vec::new();
    v.extend_from_slice(b"MZ");
    v.extend_from_slice(&[0; 58]);
    put32(&mut v, 64);
    v.extend_from_slice(b"PE\0\0");
    put16(&mut v, if wide { 0x8664 } else { 0x14c });
    put16(&mut v, 1);
    put32(&mut v, 0);
    put32(&mut v, 0);
    put32(&mut v, 0);
    put16(&mut v, optional);
    put16(&mut v, 0x22);
    let start = v.len();
    put16(&mut v, if wide { 0x20b } else { 0x10b });
    v.extend_from_slice(&[14, 0]);
    put32(&mut v, 0x200);
    put32(&mut v, 0);
    put32(&mut v, 0);
    put32(&mut v, 0x1000);
    put32(&mut v, 0x1000);
    if wide {
        put64(&mut v, 0x1_4000_0000);
    } else {
        put32(&mut v, 0);
        put32(&mut v, 0x40_0000);
    }
    put32(&mut v, 0x1000);
    put32(&mut v, 0x200);
    put16(&mut v, 6);
    put16(&mut v, 0);
    put16(&mut v, 0);
    put16(&mut v, 0);
    put16(&mut v, 6);
    put16(&mut v, 0);
    put32(&mut v, 0);
    put32(&mut v, 0x2000);
    put32(&mut v, 0x200);
    put32(&mut v, 0);
    put16(&mut v, 3);
    put16(&mut v, 0);
    for _ in 0..4 {
        if wide {
            put64(&mut v, 0x1000);
        } else {
            put32(&mut v, 0x1000);
        }
    }
    put32(&mut v, 0);
    put32(&mut v, 16);
    v.extend_from_slice(&[0; 128]);
    assert_eq!(v.len() - start, optional as usize);
    let data_at = (v.len() + 40) as u32;
    v.extend_from_slice(b".text\0\0\0");
    put32(&mut v, 16);
    put32(&mut v, 0x1000);
    put32(&mut v, 16);
    put32(&mut v, data_at);
    put32(&mut v, 0);
    put32(&mut v, 0);
    put16(&mut v, 0);
    put16(&mut v, 0);
    put32(&mut v, 0x6000_0020);
    assert_eq!(v.len() as u32, data_at);
    v.extend_from_slice(&[0xCC; 16]);
    v
}

#[test]
fn pe_sections_are_read() {
    let data = small_pe(true);
    let at = data.len() - 16;
    let parsed = ParsedBinary::parse("windows-x86_64", data).unwrap();
    assert_eq!(parsed.arch, "x86_64");
    assert_eq!(parsed.segments.len(), 1);
    assert_eq!(parsed.segments[0].name, ".text");
    assert_eq!((parsed.segments[0].offset, parsed.segments[0].size), (at, 16));
    assert!(parsed.segments[0].executable);
    let expected: [u8; 32] = blake3::hash(&[0xCC; 16]).into();
    assert_eq!(parsed.segments[0].hash, expected);
    assert_eq!(ParsedBinary::parse("windows-x86", small_pe(false)).unwrap().arch, "i686");
}

#[test]
fn unknown_formats_tell_nothing() {
    let parsed = ParsedBinary::parse("wasi-wasm32", b"\0asm\x01\0\0\0 some module bytes".to_vec()).unwrap();
    assert_eq!(parsed.arch, "unknown");
    assert!(parsed.segments.is_empty());
    assert_eq!(parsed.target, "wasi-wasm32");
}

#[test]
fn what_is_not_recognised_is_no_error() {
    for data in [vec![], vec![1, 2, 3], b"hello".to_vec(), vec![0x7f, b'E', b'L', b'F'], vec![0xAB; 16], vec![0xAB; 500]] {
        let parsed = ParsedBinary::parse("linux-x86_64", data.clone()).unwrap();
        assert_eq!(parsed.target, "linux-x86_64");
        assert_eq!(parsed.arch, "unknown");
        assert!(parsed.segments.is_empty());
        assert_eq!(parsed.data, data);
    }
}

#[test]
fn what_is_recognised_and_cannot_be_read_is_an_error() {
    let mut broken = small_elf(62);
    broken.truncate(100);
    match ParsedBinary::parse("t", broken) {
        Err(CompressionError::Parse(message)) => {
            assert!(message.starts_with("Failed to parse binary: "))
        }
        other => panic!("unexpected {:?}", other.map(|p| p.arch)),
    }
    let mut broken = small_macho(12);
    broken.truncate(40);
    assert!(matches!(ParsedBinary::parse("t", broken), Err(CompressionError::Parse(_))));
    let mut broken = small_macho(12);
    broken.truncate(100);
    assert!(matches!(ParsedBinary::parse("t", broken), Err(CompressionError::Parse(_))));
    let mut broken = small_pe(true);
    broken.truncate(70);
    assert!(matches!(ParsedBinary::parse("t", broken), Err(CompressionError::Parse(_))));
}

#[test]
fn a_broken_first_slice_tells_nothing() {
    let mut v = Vec::new();
    v.extend_from_slice(&0xcafe_babeu32.to_be_bytes());
    v.extend_from_slice(&1u32.to_be_bytes());
    v.extend_from_slice(&12u32.to_be_bytes());
    v.extend_from_slice(&0u32.to_be_bytes());
    v.extend_from_slice(&32u32.to_be_bytes());
    v.extend_from_slice(&40u32.to_be_bytes());
    v.extend_from_slice(&0u32.to_be_bytes());
    v.extend_from_slice(&[0; 4]);
    let mut thin = small_macho(12);
    thin.truncate(40);
    v.extend_from_slice(&thin);
    let parsed = ParsedBinary::parse("darwin-x86_64", v.clone()).unwrap();
    assert_eq!(parsed.arch, "unknown");
    assert!(parsed.segments.is_empty());
    // a slice that reaches beyond the file
    v.truncate(60);
    let parsed = ParsedBinary::parse("darwin-x86_64", v).unwrap();
    assert_eq!(parsed.arch, "unknown");
}

#[test]
fn macho_with_an_entry_point_before_its_text_is_read() {
    // __TEXT at file offset 8 and address 0, and an LC_MAIN command
    let mut v = small_macho(0x0100_000C);
    v[16..20].copy_from_slice(&2u32.to_le_bytes());
    v[20..24].copy_from_slice(&256u32.to_le_bytes());
    let len = v.len() as u64 + 24 - 8;
    v[32 + 24 + 16..32 + 24 + 24].copy_from_slice(&8u64.to_le_bytes());
    v[32 + 24 + 24..32 + 24 + 32].copy_from_slice(&len.to_le_bytes());
    let mut main = Vec::new();
    put32(&mut main, 0x8000_0028);
    put32(&mut main, 24);
    put64(&mut main, 4);
    put64(&mut main, 0);
    let tail = v.split_off(264);
    v.extend_from_slice(&main);
    v.extend_from_slice(&tail);
    for at in [32 + 72 + 48, 32 + 72 + 80 + 48] {
        let offset = u32::from_le_bytes([v[at], v[at + 1], v[at + 2], v[at + 3]]) + 24;
        v[at..at + 4].copy_from_slice(&offset.to_le_bytes());
    }
    let parsed = ParsedBinary::parse("darwin-aarch64", v).unwrap();
    assert_eq!(parsed.arch, "aarch64");
    let names: Vec<&str> = parsed.segments.iter().map(|s| s.name.as_str()).collect();
    assert_eq!(names, vec!["__text", "__const"]);
    assert_eq!(parsed.segments[0].offset, 288);
    let expected: [u8; 32] = blake3::hash(&[0xAA; 16]).into();
    assert_eq!(parsed.segments[0].hash, expected);
}
