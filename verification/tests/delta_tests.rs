use pbin::delta::{
    apply_patch, assign_references, create_patch, extract_arch, group_by_similarity,
    similarity_ratio, Ratio, Threshold,
};
use pbin::error::CompressionError;

fn value(r: Ratio) -> f64 {
    r.numerator() as f64 / r.denominator() as f64
}

fn half() -> Threshold {
    Threshold { numerator: 1, denominator: 2 }
}

#[test]
fn test_patch_roundtrip() {
    let reference = b"Hello, World! This is a test binary with some content.";
    let target = b"Hello, World! This is a modified binary with different content.";

    let patch = create_patch(reference, target).unwrap();
    let recovered = apply_patch(reference, &patch).unwrap();

    assert_eq!(recovered, target);
}

#[test]
fn test_identical_patch() {
    // Verify that patching identical data works correctly
    let data: Vec<u8> = (0..1000).map(|i| (i % 256) as u8).collect();
    let patch = create_patch(&data, &data).unwrap();
    let recovered = apply_patch(&data, &patch).unwrap();

    assert_eq!(recovered, data);
}

#[test]
fn test_similarity_identical() {
    let data = vec![1, 2, 3, 4, 5];
    assert!((value(similarity_ratio(&data, &data)) - 1.0).abs() < 0.001);
}

#[test]
fn test_similarity_different() {
    let a = vec![0u8; 1000];
    let b = vec![255u8; 1000];
    let sim = value(similarity_ratio(&a, &b));
    assert!(sim < 0.1);
}

#[test]
fn test_grouping() {
    let binaries = vec![
        ("linux-x86_64".to_string(), vec![1, 2, 3, 4]),
        ("darwin-x86_64".to_string(), vec![1, 2, 3, 5]),
        ("linux-aarch64".to_string(), vec![10, 20, 30, 40]),
        ("darwin-aarch64".to_string(), vec![10, 20, 30, 50]),
    ];

    let groups = group_by_similarity(&binaries, half());

    // Should group x86_64 together and aarch64 together
    assert_eq!(groups.len(), 2);
}

#[test]
fn grouping_names_references_and_members() {
    let binaries = vec![
        ("linux-x86_64".to_string(), vec![1, 2, 3, 4]),
        ("darwin-x86_64".to_string(), vec![1, 2, 3, 5]),
        ("linux-aarch64".to_string(), vec![10, 20, 30, 40]),
        ("darwin-aarch64".to_string(), vec![10, 20, 30, 50]),
    ];
    let groups = group_by_similarity(&binaries, half());
    assert_eq!(groups[0].reference_target, "linux-x86_64");
    assert_eq!(groups[0].reference_index, 0);
    assert_eq!(groups[0].delta_targets, vec!["darwin-x86_64".to_string()]);
    assert_eq!(groups[0].delta_indices, vec![1]);
    assert_eq!(groups[1].reference_target, "linux-aarch64");
    assert_eq!(groups[1].reference_index, 2);
    assert_eq!(groups[1].delta_targets, vec!["darwin-aarch64".to_string()]);
    assert_eq!(groups[1].delta_indices, vec![3]);
    assert_eq!(assign_references(&binaries, half()), vec![0, 0, 2, 2]);
}

#[test]
fn grouping_puts_every_input_in_one_group() {
    let binaries = vec![
        ("a-x".to_string(), vec![1u8; 40]),
        ("b-y".to_string(), vec![1u8; 40]),
        ("c-x".to_string(), vec![1u8; 40]),
        ("d-x".to_string(), vec![9u8; 40]),
        ("e-y".to_string(), vec![1u8; 50]),
        ("f-x".to_string(), vec![9u8; 41]),
    ];
    let groups = group_by_similarity(&binaries, half());
    let mut seen = vec![0usize; binaries.len()];
    for group in &groups {
        seen[group.reference_index] += 1;
        for (k, j) in group.delta_indices.iter().enumerate() {
            seen[*j] += 1;
            assert!(*j > group.reference_index);
            assert_eq!(group.delta_targets[k], binaries[*j].0);
            assert_eq!(
                extract_arch(&binaries[*j].0),
                extract_arch(&binaries[group.reference_index].0)
            );
        }
    }
    assert_eq!(seen, vec![1; binaries.len()]);
    assert_eq!(assign_references(&binaries, half()), vec![0, 1, 0, 3, 1, 3]);
}

#[test]
fn grouping_needs_the_same_arch_suffix() {
    let binaries = vec![
        ("linux-x86_64".to_string(), vec![1, 2, 3, 4]),
        ("linux-aarch64".to_string(), vec![1, 2, 3, 4]),
    ];
    assert_eq!(group_by_similarity(&binaries, half()).len(), 2);
    let empty: Vec<(String, Vec<u8>)> = Vec::new();
    assert!(group_by_similarity(&empty, half()).is_empty());
}

#[test]
fn grouping_takes_only_what_no_earlier_group_took() {
    // 1 is like 0 and like 2, but 2 is not like 0
    let a = vec![0u8; 8];
    let mut b = vec![0u8; 8];
    b[4] = 1;
    b[5] = 1;
    b[6] = 1;
    let mut c = vec![1u8; 8];
    c[0] = 0;
    let binaries =
        vec![("p-z".to_string(), a), ("q-z".to_string(), b), ("r-z".to_string(), c)];
    // sim(0,1) = 5/8, sim(0,2) = 1/8, sim(1,2) = 4/8
    let groups = group_by_similarity(&binaries, half());
    assert_eq!(groups.len(), 2);
    assert_eq!(groups[0].delta_indices, vec![1]);
    assert_eq!(groups[1].reference_index, 2);
    assert!(groups[1].delta_indices.is_empty());
}

#[test]
fn arch_suffix_is_what_follows_the_last_dash() {
    assert_eq!(extract_arch("linux-x86_64"), b"x86_64");
    assert_eq!(extract_arch("linux-x86_64-musl"), b"musl");
    assert_eq!(extract_arch("plain"), b"plain");
    assert_eq!(extract_arch("trailing-"), b"");
    assert_eq!(extract_arch(""), b"");
}

#[test]
fn similarity_of_empty_inputs() {
    let none: Vec<u8> = Vec::new();
    let some = vec![1u8, 2, 3];
    let both = similarity_ratio(&none, &none);
    assert_eq!((both.numerator(), both.denominator()), (1, 1));
    let one = similarity_ratio(&none, &some);
    assert_eq!((one.numerator(), one.denominator()), (0, 1));
    let other = similarity_ratio(&some, &none);
    assert_eq!((other.numerator(), other.denominator()), (0, 1));
}

#[test]
fn similarity_of_very_different_lengths_is_half_the_length_ratio() {
    let a = vec![7u8; 10];
    let b = vec![7u8; 21];
    let r = similarity_ratio(&a, &b);
    assert_eq!((r.numerator(), r.denominator()), (10, 42));
    // exactly half as long is still sampled
    let c = vec![7u8; 20];
    let r = similarity_ratio(&a, &c);
    assert_eq!((r.numerator(), r.denominator()), (10 * 10, 10 * 20));
}

#[test]
fn similarity_counts_sampled_matches() {
    let a = vec![1u8, 2, 3, 4];
    let b = vec![1u8, 2, 3, 5];
    let r = similarity_ratio(&a, &b);
    assert_eq!((r.numerator(), r.denominator()), (3 * 4, 4 * 4));
    // 2048 bytes: 1024 samples at every second place
    let mut x = vec![0u8; 2048];
    let y = vec![0u8; 2048];
    x[1] = 9; // not sampled
    x[2] = 9; // sampled
    let r = similarity_ratio(&x, &y);
    assert_eq!((r.numerator(), r.denominator()), (1023 * 2048, 1024 * 2048));
}

#[test]
fn similarity_is_symmetric_and_within_bounds() {
    let inputs: Vec<Vec<u8>> = vec![
        vec![],
        vec![1],
        vec![1, 2, 3, 4, 5, 6],
        vec![1, 9, 3, 9, 5, 9, 7],
        (0..3000).map(|i| (i % 7) as u8).collect(),
        (0..2500).map(|i| (i % 5) as u8).collect(),
    ];
    for a in &inputs {
        for b in &inputs {
            let ab = similarity_ratio(a, b);
            let ba = similarity_ratio(b, a);
            assert_eq!((ab.numerator(), ab.denominator()), (ba.numerator(), ba.denominator()));
            assert!(ab.denominator() > 0);
            assert!(ab.numerator() <= ab.denominator());
        }
        if !a.is_empty() {
            let aa = similarity_ratio(a, a);
            assert_eq!(aa.numerator(), aa.denominator());
        }
    }
}

#[test]
fn ratio_compares_exactly() {
    let r = Ratio::new(3, 5).unwrap();
    assert!(r.at_least(Threshold { numerator: 3, denominator: 5 }));
    assert!(r.at_least(Threshold { numerator: 2, denominator: 5 }));
    assert!(!r.at_least(Threshold { numerator: 4, denominator: 5 }));
    assert!(!r.at_least(Threshold { numerator: 1, denominator: 0 }));
    assert!(r.at_least(Threshold { numerator: 0, denominator: 0 }));
    assert!(Ratio::new(1, 0).is_none());
    let z = Ratio::zero();
    assert_eq!((z.numerator(), z.denominator()), (0, 1));
}

#[test]
fn patch_against_empty_reference() {
    let none: Vec<u8> = Vec::new();
    let patch = create_patch(&none, &none).unwrap();
    assert_eq!(apply_patch(&none, &patch).unwrap(), none);
    match create_patch(&none, b"abc") {
        Err(CompressionError::Delta(_)) => {}
        other => panic!("unexpected {:?}", other),
    }
}

#[test]
fn patch_differs_from_both_inputs() {
    let reference = b"The quick brown fox jumps over the lazy dog, again and again.".to_vec();
    let target = b"The quick brown cat jumps over the lazy dog, again and again!".to_vec();
    let patch = create_patch(&reference, &target).unwrap();
    assert_ne!(patch, reference);
    assert_ne!(patch, target);
    assert_eq!(apply_patch(&reference, &patch).unwrap(), target);
}

#[test]
fn broken_patches_are_refused() {
    let reference = b"some reference bytes".to_vec();
    match apply_patch(&reference, b"not a patch") {
        Err(CompressionError::Delta(message)) => assert!(message.starts_with("Failed to read patch")),
        other => panic!("unexpected {:?}", other),
    }
    // magic and version, then a control that asks for more than there is
    let mut patch = vec![0xDF, 0xB1, 0x00, 0x00, 0x00, 0x10, 0x00, 0x00];
    patch.push(0x40);
    match apply_patch(&reference, &patch) {
        Err(CompressionError::Delta(message)) => assert!(message.starts_with("Failed to apply patch")),
        other => panic!("unexpected {:?}", other),
    }
}

#[test]
fn tiny_references_can_be_patched() {
    let references: Vec<Vec<u8>> =
        vec![b"a".to_vec(), b"ab".to_vec(), b"ba".to_vec(), b"aa".to_vec(), b"abc".to_vec(), vec![0; 7]];
    let targets: Vec<Vec<u8>> = vec![
        vec![],
        b"a".to_vec(),
        b"b".to_vec(),
        b"zzzz".to_vec(),
        b"abcabcabc".to_vec(),
        vec![0; 300],
        (0..=255).collect(),
    ];
    for reference in &references {
        for target in &targets {
            let patch = create_patch(reference, target).unwrap();
            assert_eq!(&apply_patch(reference, &patch).unwrap(), target);
        }
    }
}
