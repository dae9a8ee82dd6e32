use pbin::header::{find_payload_marker, PAYLOAD_MARKER};
use pbin::stub::{StubGenerator, STUB_TEMPLATE};

#[test]
fn test_stub_generation() {
    let stub = StubGenerator::generate();
    assert!(!stub.is_empty());

    // Verify it contains the payload marker at the end
    let stub_str = String::from_utf8_lossy(&stub);
    assert!(stub_str.ends_with("__PBIN_PAYLOAD__"));

    // Verify it starts with the batch/shell polyglot
    assert!(stub_str.starts_with(":<<"));
}

#[test]
fn test_stub_size() {
    let size = StubGenerator::stub_size();
    // The launcher stays under 4 KiB
    assert!(size < 4096, "Stub size {} exceeds 4KB limit", size);
}

#[test]
fn stub_is_the_template() {
    let stub = StubGenerator::generate();
    assert_eq!(stub, STUB_TEMPLATE.as_bytes());
    assert_eq!(StubGenerator::stub_size(), stub.len());
    assert_eq!(find_payload_marker(&stub), Some(stub.len() - PAYLOAD_MARKER.len()));
}
