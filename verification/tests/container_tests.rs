use pbin::container::{
    describe, describe_stored, extract, locate_header, manifest_bytes, place_payloads,
    read_header, write_container, FixupStep, OffsetFixup, MAX_FIXUP_ROUNDS,
};
use pbin::error::{CompressionError, Error};
use pbin::header::{PbinHeader, PAYLOAD_MARKER};
use pbin::manifest::{Compression, PbinEntry, PbinManifest};
use pbin::pipeline::{CompressionLevel, CompressionPipeline, CompressionResult};
use pbin::stub::StubGenerator;
use pbin::target::Target;
use serde_json::{Number, Value};

fn to_json(manifest: &PbinManifest) -> Vec<u8> {
    let mut doc = serde_json::Map::new();
    doc.insert("name".to_string(), Value::String(manifest.name.clone()));
    doc.insert("version".to_string(), Value::String(manifest.version.clone()));
    let mut entries = Vec::new();
    for e in &manifest.entries {
        let mut o = serde_json::Map::new();
        o.insert("target".to_string(), Value::String(e.target.clone()));
        o.insert("offset".to_string(), Value::Number(Number::from(e.offset)));
        o.insert("compressed_size".to_string(), Value::Number(Number::from(e.compressed_size)));
        o.insert("uncompressed_size".to_string(), Value::Number(Number::from(e.uncompressed_size)));
        o.insert("checksum".to_string(), Value::String(e.checksum.clone()));
        if let Some(r) = &e.delta_reference {
            o.insert("delta_reference".to_string(), Value::String(r.clone()));
            o.insert("patch_size".to_string(), Value::Number(Number::from(e.patch_size)));
        }
        if e.bcj_filtered {
            o.insert("bcj_filtered".to_string(), Value::Bool(true));
        }
        entries.push(Value::Object(o));
    }
    doc.insert("entries".to_string(), Value::Array(entries));
    if manifest.dictionary_size != 0 {
        doc.insert(
            "dictionary_size".to_string(),
            Value::Number(Number::from(manifest.dictionary_size)),
        );
    }
    serde_json::to_vec(&Value::Object(doc)).unwrap()
}

fn from_json(bytes: &[u8]) -> PbinManifest {
    let doc: Value = serde_json::from_slice(bytes).unwrap();
    let mut manifest = PbinManifest::new(
        doc["name"].as_str().unwrap().to_string(),
        doc["version"].as_str().unwrap().to_string(),
    );
    manifest.dictionary_size = doc.get("dictionary_size").and_then(|v| v.as_u64()).unwrap_or(0);
    for e in doc["entries"].as_array().unwrap() {
        manifest.add_entry(PbinEntry {
            target: e["target"].as_str().unwrap().to_string(),
            offset: e["offset"].as_u64().unwrap(),
            compressed_size: e["compressed_size"].as_u64().unwrap(),
            uncompressed_size: e["uncompressed_size"].as_u64().unwrap(),
            checksum: e["checksum"].as_str().unwrap().to_string(),
            delta_reference: e.get("delta_reference").and_then(|v| v.as_str()).map(|s| s.to_string()),
            patch_size: e.get("patch_size").and_then(|v| v.as_u64()).unwrap_or(0),
            bcj_filtered: e.get("bcj_filtered").and_then(|v| v.as_bool()).unwrap_or(false),
        });
    }
    manifest
}

fn settle(manifest: PbinManifest, launcher_len: usize) -> (PbinManifest, Vec<u8>, usize) {
    let mut fixup = OffsetFixup::new(manifest, launcher_len);
    let mut json = to_json(fixup.current());
    let mut rounds = 0;
    loop {
        match fixup.step(json.len()).unwrap() {
            FixupStep::Done => return (fixup.finish(), json, rounds),
            FixupStep::Serialize => {
                json = to_json(fixup.current());
                rounds += 1;
                assert!(rounds < 8);
            }
        }
    }
}

fn binary(seed: u32, len: usize) -> Vec<u8> {
    let mut state = seed;
    let mut data = Vec::with_capacity(len);
    for k in 0..len {
        state = state.wrapping_mul(1103515245).wrapping_add(12345);
        data.push(match k % 9 {
            0 => 0xE8,
            4 => 0x94,
            _ => (state >> 16) as u8 % 23,
        });
    }
    data
}

struct Packed {
    file: Vec<u8>,
    manifest: PbinManifest,
    result: CompressionResult,
}

fn pack(binaries: &Vec<(String, Vec<u8>)>, pipeline: &mut CompressionPipeline) -> Packed {
    let result = pipeline.compress_all(binaries.clone()).unwrap();
    let manifest = describe("demo".to_string(), "1.2.3".to_string(), binaries, &result).unwrap();
    let stub = StubGenerator::generate();
    let (manifest, json, _) = settle(manifest, stub.len());
    let dictionary = result.dictionary.clone().unwrap_or_default();
    let payloads: Vec<Vec<u8>> = result.entries.iter().map(|e| e.data.clone()).collect();
    let file =
        write_container(&stub, Compression::Zstd, &manifest, &json, &dictionary, &payloads).unwrap();
    Packed { file, manifest, result }
}

fn three() -> Vec<(String, Vec<u8>)> {
    vec![
        ("linux-x86_64".to_string(), binary(1, 5000)),
        ("darwin-aarch64".to_string(), binary(2, 4000)),
        ("windows-x86_64".to_string(), binary(3, 6000)),
    ]
}

#[test]
fn container_round_trip() {
    let binaries = three();
    let mut pipeline = CompressionPipeline::new(CompressionLevel::Balanced);
    let packed = pack(&binaries, &mut pipeline);
    let file = &packed.file;
    let stub = StubGenerator::generate();
    assert!(file.starts_with(&stub));
    assert_eq!(locate_header(file).unwrap(), stub.len());
    let (at, header) = read_header(file).unwrap();
    assert_eq!(at, stub.len());
    assert_eq!(&file[at - 16..at], &PAYLOAD_MARKER);
    assert_eq!(&file[at..at + 4], b"PBIN");
    assert_eq!(header.version, 1);
    assert_eq!(header.entry_count, 3);
    assert_eq!(header.compression, Compression::Zstd);
    assert_eq!(header.flags, 0);
    let json = manifest_bytes(file, at, &header).unwrap();
    assert_eq!(json.len(), header.manifest_size as usize);
    let manifest = from_json(json);
    assert_eq!(manifest.name, "demo");
    assert_eq!(manifest.version, "1.2.3");
    assert_eq!(manifest.entries.len(), 3);
    for (name, data) in &binaries {
        let target = Target::from_str(name).unwrap();
        let bytes = extract(file, at, &header, &manifest, target).unwrap();
        assert_eq!(&bytes, data);
        let entry = manifest.find_entry(target).unwrap();
        assert_eq!(entry.uncompressed_size, data.len() as u64);
        let digest: [u8; 32] = blake3::hash(&bytes).into();
        assert_eq!(entry.checksum_bytes().unwrap(), digest);
        assert!(entry.verify_checksum(&bytes).unwrap());
    }
}

#[test]
fn offsets_lie_within_the_file_and_do_not_overlap() {
    let binaries = three();
    let mut pipeline = CompressionPipeline::new(CompressionLevel::Fast);
    let packed = pack(&binaries, &mut pipeline);
    let (at, header) = read_header(&packed.file).unwrap();
    let mut expected = (at + 64 + header.manifest_size as usize) as u64 + packed.manifest.dictionary_size;
    for (k, entry) in packed.manifest.entries.iter().enumerate() {
        assert_eq!(entry.offset, expected);
        assert_eq!(entry.compressed_size, packed.result.entries[k].data.len() as u64);
        let start = entry.offset as usize;
        let end = start + entry.compressed_size as usize;
        assert!(end <= packed.file.len());
        assert_eq!(&packed.file[start..end], &packed.result.entries[k].data[..]);
        expected += entry.compressed_size;
    }
    assert_eq!(expected, packed.file.len() as u64);
}

#[test]
fn patches_and_filters_are_undone_on_extraction() {
    let base = binary(7, 8000);
    let mut other = base.clone();
    other[17] ^= 1;
    other[4001] ^= 1;
    let binaries = vec![
        ("linux-x86_64".to_string(), base),
        ("freebsd-x86_64".to_string(), other),
        ("linux-aarch64".to_string(), binary(9, 3000)),
    ];
    let mut pipeline = CompressionPipeline::new(CompressionLevel::Maximum);
    let packed = pack(&binaries, &mut pipeline);
    assert_eq!(packed.manifest.entries[1].delta_reference.as_deref(), Some("linux-x86_64"));
    assert!(packed.manifest.entries[1].patch_size > 0);
    assert!(packed.manifest.entries[0].bcj_filtered);
    let (at, header) = read_header(&packed.file).unwrap();
    let manifest = from_json(manifest_bytes(&packed.file, at, &header).unwrap());
    for (name, data) in &binaries {
        let bytes =
            extract(&packed.file, at, &header, &manifest, Target::from_str(name).unwrap()).unwrap();
        assert_eq!(&bytes, data);
    }
}

#[test]
fn a_dictionary_stands_between_manifest_and_payloads() {
    let names = [
        "linux-x86_64",
        "darwin-x86_64",
        "windows-x86_64",
        "freebsd-x86_64",
        "netbsd-x86_64",
        "openbsd-x86_64",
        "android-x86_64",
        "linux-aarch64",
    ];
    let binaries: Vec<(String, Vec<u8>)> = names
        .iter()
        .enumerate()
        .map(|(k, n)| {
            let mut data = Vec::new();
            for block in 0..60 {
                data.extend_from_slice(b"common prologue of every function in this program;");
                data.extend_from_slice(format!("block {} of binary {}", block * (k + 1), k).as_bytes());
            }
            (n.to_string(), data)
        })
        .collect();
    let mut pipeline = CompressionPipeline::new(CompressionLevel::Fast).without_delta();
    let packed = pack(&binaries, &mut pipeline);
    let (at, header) = read_header(&packed.file).unwrap();
    let manifest = from_json(manifest_bytes(&packed.file, at, &header).unwrap());
    let dict_len = packed.result.dictionary.as_ref().map(|d| d.len()).unwrap_or(0);
    assert_eq!(manifest.dictionary_size, dict_len as u64);
    if let Some(dict) = &packed.result.dictionary {
        let start = at + 64 + header.manifest_size as usize;
        assert_eq!(&packed.file[start..start + dict.len()], &dict[..]);
        assert_eq!(manifest.entries[0].offset, (start + dict.len()) as u64);
    }
    for (name, data) in &binaries {
        let bytes =
            extract(&packed.file, at, &header, &manifest, Target::from_str(name).unwrap()).unwrap();
        assert_eq!(&bytes, data);
    }
}

#[test]
fn binaries_can_be_stored_as_they_are() {
    let binaries = vec![
        (Target::LinuxX86_64, binary(1, 300)),
        (Target::WasiWasm32, Vec::new()),
        (Target::DarwinAarch64, binary(2, 200)),
    ];
    let manifest = describe_stored("plain".to_string(), "0.1".to_string(), &binaries);
    assert_eq!(manifest.entries[0].compressed_size, 300);
    assert_eq!(manifest.entries[0].uncompressed_size, 300);
    assert_eq!(manifest.entries[1].compressed_size, 0);
    let launcher = b"#!/bin/sh\nexit 0\n__PBIN_PAYLOAD__".to_vec();
    let (manifest, json, _) = settle(manifest, launcher.len());
    let payloads: Vec<Vec<u8>> = binaries.iter().map(|(_, d)| d.clone()).collect();
    let file =
        write_container(&launcher, Compression::Uncompressed, &manifest, &json, &[], &payloads)
            .unwrap();
    assert_eq!(file.len(), launcher.len() + 64 + json.len() + 500);
    let (at, header) = read_header(&file).unwrap();
    assert_eq!(header.compression, Compression::Uncompressed);
    let manifest = from_json(manifest_bytes(&file, at, &header).unwrap());
    // an empty payload shares its offset with the next
    assert_eq!(manifest.entries[1].offset, manifest.entries[2].offset);
    for (target, data) in &binaries {
        assert_eq!(&extract(&file, at, &header, &manifest, *target).unwrap(), data);
    }
}

fn entry(target: Target, size: u64) -> PbinEntry {
    PbinEntry::new(target, 0, size, size, [0; 32])
}

#[test]
fn payloads_are_placed_one_after_the_other() {
    let mut manifest = PbinManifest::new("n".to_string(), "v".to_string());
    manifest.add_entry(entry(Target::LinuxX86_64, 10));
    manifest.add_entry(entry(Target::DarwinAarch64, 0));
    manifest.add_entry(entry(Target::WindowsX86_64, 25));
    manifest.dictionary_size = 7;
    let end = place_payloads(&mut manifest, 100, 50).unwrap();
    let offsets: Vec<u64> = manifest.entries.iter().map(|e| e.offset).collect();
    assert_eq!(offsets, vec![221, 231, 231]);
    assert_eq!(end, 256);
    assert_eq!(manifest.entries[2].compressed_size, 25);
    assert_eq!(manifest.entries[2].target, "windows-x86_64");
    let mut none = PbinManifest::new("n".to_string(), "v".to_string());
    assert_eq!(place_payloads(&mut none, 3, 4).unwrap(), 71);
}

#[test]
fn a_file_too_long_for_its_offsets_is_refused() {
    let mut manifest = PbinManifest::new("n".to_string(), "v".to_string());
    manifest.add_entry(entry(Target::LinuxX86_64, u64::MAX - 200));
    manifest.add_entry(entry(Target::DarwinAarch64, 100));
    match place_payloads(&mut manifest, 100, 50) {
        Err(Error::Compression(CompressionError::InvalidData(_))) => {}
        other => panic!("unexpected {:?}", other),
    }
    assert_eq!(manifest.entries[0].offset, 0);
    assert_eq!(manifest.entries[1].offset, 0);
    assert_eq!(place_payloads(&mut manifest, 16, 20).unwrap(), u64::MAX);
    let mut fixup = OffsetFixup::new(manifest, 1000);
    assert!(matches!(
        fixup.step(10),
        Err(Error::Compression(CompressionError::InvalidData(_)))
    ));
}

#[test]
fn offsets_settle_when_the_length_stays() {
    let mut manifest = PbinManifest::new("n".to_string(), "v".to_string());
    manifest.add_entry(entry(Target::LinuxX86_64, 10));
    manifest.add_entry(entry(Target::DarwinAarch64, 20));
    let mut fixup = OffsetFixup::new(manifest, 36);
    assert_eq!(fixup.current().entries[1].offset, 0);
    assert_eq!(fixup.step(200).unwrap(), FixupStep::Serialize);
    assert_eq!(fixup.current().entries[0].offset, 300);
    assert_eq!(fixup.current().entries[1].offset, 310);
    assert_eq!(fixup.step(204).unwrap(), FixupStep::Serialize);
    assert_eq!(fixup.current().entries[0].offset, 304);
    assert_eq!(fixup.step(204).unwrap(), FixupStep::Done);
    assert_eq!(fixup.step(204).unwrap(), FixupStep::Done);
    let manifest = fixup.finish();
    assert_eq!(manifest.entries[1].offset, 314);
}

#[test]
fn offsets_agree_with_the_manifest_that_holds_them() {
    // 950 bytes of launcher push the offsets over 1000: the manifest grows
    let mut manifest = PbinManifest::new("n".to_string(), "v".to_string());
    for target in [Target::LinuxX86_64, Target::DarwinAarch64, Target::WindowsX86_64] {
        manifest.add_entry(entry(target, 1));
    }
    let (manifest, json, rounds) = settle(manifest, 700);
    assert!(rounds >= 1);
    assert_eq!(to_json(&manifest), json);
    assert_eq!(manifest.entries[0].offset, (700 + 64 + json.len()) as u64);
}

#[test]
fn parts_that_do_not_fit_are_not_written() {
    let launcher = b"launcher__PBIN_PAYLOAD__".to_vec();
    let mut manifest = PbinManifest::new("n".to_string(), "v".to_string());
    manifest.add_entry(entry(Target::LinuxX86_64, 3));
    let json = b"{}".to_vec();
    let refused = |m: &PbinManifest, dict: &[u8], payloads: &Vec<Vec<u8>>| {
        matches!(
            write_container(&launcher, Compression::Zstd, m, &json, dict, payloads),
            Err(Error::Compression(CompressionError::InvalidData(_)))
        )
    };
    // offsets not placed
    assert!(refused(&manifest, &[], &vec![vec![1, 2, 3]]));
    place_payloads(&mut manifest, launcher.len(), json.len()).unwrap();
    assert!(!refused(&manifest, &[], &vec![vec![1, 2, 3]]));
    // a payload of another length, another number of payloads, a dictionary
    assert!(refused(&manifest, &[], &vec![vec![1, 2]]));
    assert!(refused(&manifest, &[], &vec![]));
    assert!(refused(&manifest, &[], &vec![vec![1, 2, 3], vec![]]));
    assert!(refused(&manifest, &[9], &vec![vec![1, 2, 3]]));
    let file =
        write_container(&launcher, Compression::Zstd, &manifest, &json, &[], &vec![vec![1, 2, 3]])
            .unwrap();
    let mut expected = launcher.clone();
    expected.extend_from_slice(&PbinHeader::new(Compression::Zstd, 1, 2).to_bytes());
    expected.extend_from_slice(b"{}");
    expected.extend_from_slice(&[1, 2, 3]);
    assert_eq!(file, expected);
}

#[test]
fn more_than_255_payloads_are_refused() {
    let mut manifest = PbinManifest::new("n".to_string(), "v".to_string());
    let mut payloads = Vec::new();
    for _ in 0..256 {
        manifest.add_entry(entry(Target::LinuxX86_64, 0));
        payloads.push(Vec::new());
    }
    place_payloads(&mut manifest, 0, 2).unwrap();
    assert!(matches!(
        write_container(&[], Compression::Zstd, &manifest, b"{}", &[], &payloads),
        Err(Error::Compression(CompressionError::InvalidData(_)))
    ));
    manifest.entries.pop();
    payloads.pop();
    assert!(write_container(&[], Compression::Zstd, &manifest, b"{}", &[], &payloads).is_ok());
}

#[test]
fn reading_fails_as_the_format_says() {
    match read_header(b"no marker here") {
        Err(Error::PayloadMarkerNotFound) => {}
        other => panic!("unexpected {:?}", other),
    }
    assert!(matches!(locate_header(b""), Err(Error::PayloadMarkerNotFound)));
    let mut file = b"x__PBIN_PAYLOAD__".to_vec();
    match read_header(&file) {
        Err(Error::HeaderTooShort { expected: 64, actual: 0 }) => {}
        other => panic!("unexpected {:?}", other),
    }
    file.extend_from_slice(&[0u8; 64]);
    match read_header(&file) {
        Err(Error::InvalidMagic(found)) => assert_eq!(found, [0; 4]),
        other => panic!("unexpected {:?}", other),
    }
    let mut header = PbinHeader::new(Compression::Zstd, 0, 5).to_bytes();
    file.truncate(17);
    file.extend_from_slice(&header);
    file.extend_from_slice(b"1234");
    match read_header(&file) {
        Err(Error::Compression(CompressionError::InvalidData(_))) => {}
        other => panic!("unexpected {:?}", other),
    }
    file.push(b'5');
    let (at, read) = read_header(&file).unwrap();
    assert_eq!(at, 17);
    assert_eq!(manifest_bytes(&file, at, &read).unwrap(), b"12345");
    assert_eq!(manifest_bytes(&file[..file.len() - 1], at, &read), None);
    header[4] = 2;
    file.truncate(17);
    file.extend_from_slice(&header);
    assert!(matches!(read_header(&file), Err(Error::UnsupportedVersion(2))));
    header[4] = 1;
    header[6] = 7;
    file.truncate(17);
    file.extend_from_slice(&header);
    assert!(matches!(read_header(&file), Err(Error::UnknownCompression(7))));
}

#[test]
fn extraction_fails_as_the_format_says() {
    let binaries = three();
    let mut pipeline = CompressionPipeline::new(CompressionLevel::Fast);
    let packed = pack(&binaries, &mut pipeline);
    let file = &packed.file;
    let (at, header) = read_header(file).unwrap();
    let manifest = from_json(manifest_bytes(file, at, &header).unwrap());

    match extract(file, at, &header, &manifest, Target::LinuxRiscv64) {
        Err(Error::TargetNotFound(name)) => assert_eq!(name, "linux-riscv64"),
        other => panic!("unexpected {:?}", other.map(|b| b.len())),
    }

    let mut wrong = manifest.clone();
    wrong.entries[0].checksum = "00".repeat(32);
    match extract(file, at, &header, &wrong, Target::LinuxX86_64) {
        Err(Error::ChecksumMismatch { expected, actual }) => {
            assert_eq!(expected, "00".repeat(32));
            let digest: [u8; 32] = blake3::hash(&binaries[0].1).into();
            assert_eq!(actual, pbin::manifest::hex_encode(&digest));
        }
        other => panic!("unexpected {:?}", other.map(|b| b.len())),
    }
    let mut wrong = manifest.clone();
    wrong.entries[0].checksum = "zz".to_string();
    assert!(matches!(
        extract(file, at, &header, &wrong, Target::LinuxX86_64),
        Err(Error::ChecksumMismatch { .. })
    ));
    let mut wrong = manifest.clone();
    wrong.entries[0].uncompressed_size += 1;
    assert!(matches!(
        extract(file, at, &header, &wrong, Target::LinuxX86_64),
        Err(Error::ChecksumMismatch { .. })
    ));
    let mut wrong = manifest.clone();
    wrong.entries[0].uncompressed_size -= 1;
    assert!(matches!(
        extract(file, at, &header, &wrong, Target::LinuxX86_64),
        Err(Error::Compression(CompressionError::Decompression(_)))
    ));
    let mut wrong = manifest.clone();
    wrong.entries[2].compressed_size += 1;
    assert!(matches!(
        extract(file, at, &header, &wrong, Target::WindowsX86_64),
        Err(Error::Compression(CompressionError::InvalidData(_)))
    ));
    let mut wrong = manifest.clone();
    wrong.entries[0].offset = u64::MAX;
    assert!(matches!(
        extract(file, at, &header, &wrong, Target::LinuxX86_64),
        Err(Error::Compression(CompressionError::InvalidData(_)))
    ));
    let mut wrong = manifest.clone();
    wrong.dictionary_size = u64::MAX;
    assert!(matches!(
        extract(file, at, &header, &wrong, Target::LinuxX86_64),
        Err(Error::Compression(CompressionError::InvalidData(_)))
    ));
    let mut wrong = manifest.clone();
    wrong.entries[0].delta_reference = Some("linux-mips64".to_string());
    assert!(matches!(
        extract(file, at, &header, &wrong, Target::LinuxX86_64),
        Err(Error::Compression(CompressionError::InvalidData(_)))
    ));
    let mut wrong = manifest.clone();
    wrong.entries[0].delta_reference = Some("darwin-aarch64".to_string());
    wrong.entries[1].delta_reference = Some("windows-x86_64".to_string());
    assert!(matches!(
        extract(file, at, &header, &wrong, Target::LinuxX86_64),
        Err(Error::Compression(CompressionError::InvalidData(_)))
    ));
    let mut wrong = manifest.clone();
    wrong.entries[0].delta_reference = Some("darwin-aarch64".to_string());
    wrong.entries[0].patch_size = 1 << 20;
    assert!(matches!(
        extract(file, at, &header, &wrong, Target::LinuxX86_64),
        Err(Error::Compression(CompressionError::Delta(_)))
    ));
    let mut other = header.clone();
    other.entry_count = 2;
    assert!(matches!(
        extract(file, at, &other, &manifest, Target::LinuxX86_64),
        Err(Error::Compression(CompressionError::InvalidData(_)))
    ));
    other.entry_count = 3;
    other.compression = Compression::Lz4;
    assert!(matches!(
        extract(file, at, &other, &manifest, Target::LinuxX86_64),
        Err(Error::Compression(CompressionError::Decompression(_)))
    ));
    other.compression = Compression::Uncompressed;
    assert!(matches!(
        extract(file, at, &other, &manifest, Target::LinuxX86_64),
        Err(Error::ChecksumMismatch { .. })
    ));
    let mut damaged = file.clone();
    let last = damaged.len() - 5;
    damaged[last] ^= 0xFF;
    assert!(extract(&damaged, at, &header, &manifest, Target::WindowsX86_64).is_err());
}

#[test]
fn manifests_describe_what_the_pipeline_made() {
    let binaries = three();
    let mut pipeline = CompressionPipeline::new(CompressionLevel::Fast);
    let result = pipeline.compress_all(binaries.clone()).unwrap();
    let manifest = describe("demo".to_string(), "9".to_string(), &binaries, &result).unwrap();
    assert_eq!(manifest.name, "demo");
    assert_eq!(manifest.version, "9");
    for (k, e) in manifest.entries.iter().enumerate() {
        assert_eq!(e.target, binaries[k].0);
        assert_eq!(e.offset, 0);
        assert_eq!(e.compressed_size, result.entries[k].data.len() as u64);
        assert_eq!(e.uncompressed_size, binaries[k].1.len() as u64);
        let digest: [u8; 32] = blake3::hash(&binaries[k].1).into();
        assert_eq!(e.checksum, pbin::manifest::hex_encode(&digest));
        assert_eq!(e.delta_reference, result.entries[k].delta_reference);
        assert_eq!(e.patch_size, result.entries[k].patch_size as u64);
        assert_eq!(e.bcj_filtered, result.entries[k].bcj_filtered);
    }
    let fewer = binaries[..2].to_vec();
    assert!(matches!(
        describe("demo".to_string(), "9".to_string(), &fewer, &result),
        Err(Error::Compression(CompressionError::InvalidData(_)))
    ));
    let odd = vec![("plan9-pdp11".to_string(), vec![1, 2, 3])];
    let result = pipeline.compress_all(odd.clone()).unwrap();
    match describe("demo".to_string(), "9".to_string(), &odd, &result) {
        Err(Error::InvalidTarget(name)) => assert_eq!(name, "plan9-pdp11"),
        other => panic!("unexpected {:?}", other.map(|m| m.entries.len())),
    }
}

#[test]
fn a_search_that_does_not_settle_is_given_up() {
    let mut manifest = PbinManifest::new("n".to_string(), "v".to_string());
    manifest.add_entry(entry(Target::LinuxX86_64, 10));
    let mut fixup = OffsetFixup::new(manifest, 36);
    assert_eq!(MAX_FIXUP_ROUNDS, 8);
    for round in 0..MAX_FIXUP_ROUNDS {
        assert_eq!(fixup.step(100 + round).unwrap(), FixupStep::Serialize);
        assert_eq!(fixup.current().entries[0].offset, (200 + round) as u64);
    }
    assert!(matches!(
        fixup.step(500),
        Err(Error::Compression(CompressionError::InvalidData(_)))
    ));
    assert_eq!(fixup.current().entries[0].offset, 207);
    // the length that the offsets were computed for still stands
    assert_eq!(fixup.step(107).unwrap(), FixupStep::Done);
}

#[test]
fn stored_payloads_that_are_too_long_are_refused() {
    let binaries = vec![(Target::LinuxX86_64, binary(1, 300))];
    let manifest = describe_stored("plain".to_string(), "0.1".to_string(), &binaries);
    let launcher = b"__PBIN_PAYLOAD__".to_vec();
    let (manifest, json, _) = settle(manifest, launcher.len());
    let payloads: Vec<Vec<u8>> = binaries.iter().map(|(_, d)| d.clone()).collect();
    let file =
        write_container(&launcher, Compression::Uncompressed, &manifest, &json, &[], &payloads)
            .unwrap();
    let (at, header) = read_header(&file).unwrap();
    assert_eq!(extract(&file, at, &header, &manifest, Target::LinuxX86_64).unwrap(), binaries[0].1);
    let mut wrong = manifest.clone();
    wrong.entries[0].uncompressed_size = 299;
    assert!(matches!(
        extract(&file, at, &header, &wrong, Target::LinuxX86_64),
        Err(Error::Compression(CompressionError::Decompression(_)))
    ));
}
