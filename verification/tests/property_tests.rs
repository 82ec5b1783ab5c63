use guest_mmr::FormattingError;
use guest_mmr::GuestMMR;
use guest_mmr::MMRError;
use guest_mmr::PeaksFormattingOptions;
use guest_mmr::PeaksOptions;
use guest_mmr::decimal::to_decimal_string;
use guest_mmr::find_peaks;
use guest_mmr::hash;

#[test]
fn find_peaks_matches_binary_decomposition() {
    assert_eq!(find_peaks(0), Vec::<usize>::new());
    assert_eq!(find_peaks(1), vec![1]);
    assert_eq!(find_peaks(3), vec![3]);
    assert_eq!(find_peaks(4), vec![3, 4]);
    assert_eq!(find_peaks(7), vec![7]);
    assert_eq!(find_peaks(11), vec![7, 10, 11]);
    // 2 is not the size of any mountain range: one leaf alone cannot have
    // a parent node.
    assert_eq!(find_peaks(2), Vec::<usize>::new());
    // The last peak position of a valid size is the size itself.
    for n in [1usize, 3, 4, 7, 8, 10, 11, 15, 16, 18, 19] {
        let peaks = find_peaks(n);
        assert_eq!(*peaks.last().unwrap(), n);
    }
}

#[test]
fn append_counts_follow_merge_rule() {
    let mut mmr = GuestMMR::new(vec![], 0, 0);
    // 1st append: no merge.
    mmr.append("0x1".to_string()).expect("append failed");
    assert_eq!(mmr.get_elements_count(), 1);
    assert_eq!(mmr.get_leaves_count(), 1);
    // 2nd append: exactly one merge.
    mmr.append("0x2".to_string()).expect("append failed");
    assert_eq!(mmr.get_elements_count(), 3);
    assert_eq!(mmr.get_leaves_count(), 2);
}

#[test]
fn four_appends_trace_and_single_peak() {
    let mut mmr = GuestMMR::new(vec![], 0, 0);
    let digests = [
        "0x6c17009d66e34c1d6b7e4d73fd5a105243feb10c7cae9598d60b0fa97d08868",
        "0x4998b07fef69c1b1658fcb44d44fa5bb0ca62c835b26fe763ca14b61a6595da",
        "0x7337cf1262bf9eeaecffe02776fa1cc9fd35c6fc49303a2b5f39d96a7b46afa",
        "0x16fa2f065f204a16db293c9adf370da4e08eea45874692dfa00123b21bbfe81",
    ];
    let expected_counts = [(1, 1), (3, 2), (4, 3), (7, 4)];
    let expected_leaf_positions = [1, 2, 4, 5];
    for (i, digest) in digests.iter().enumerate() {
        let result = mmr.append(digest.to_string()).expect("append failed");
        assert_eq!(mmr.get_elements_count(), expected_counts[i].0);
        assert_eq!(mmr.get_leaves_count(), expected_counts[i].1);
        assert_eq!(result.element_index, expected_leaf_positions[i]);
        assert!(mmr.get_elements_count() >= mmr.get_leaves_count());
    }
    // A perfectly balanced tree of 4 leaves has a single peak.
    let peaks = mmr
        .get_peaks(PeaksOptions {
            elements_count: None,
            formatting_opts: None,
        })
        .expect("get_peaks failed");
    assert_eq!(peaks.len(), 1);
}

#[test]
fn bag_the_peaks_zero_and_single_peak() {
    // Zero peaks: the canonical zero digest.
    let empty = GuestMMR::new(vec![], 0, 0);
    assert_eq!(empty.bag_the_peaks().expect("bag failed"), "0x0");

    // A single peak is returned unchanged.
    let mut mmr = GuestMMR::new(vec![], 0, 0);
    mmr.append("0xabc".to_string()).expect("append failed");
    assert_eq!(mmr.bag_the_peaks().expect("bag failed"), "0xabc");
}

#[test]
fn get_peaks_pads_to_fixed_width() {
    // Four elements, three leaves: two live peaks (positions 3 and 4).
    let mut mmr = GuestMMR::new(vec![], 0, 0);
    mmr.append("0x1".to_string()).expect("append failed");
    mmr.append("0x2".to_string()).expect("append failed");
    mmr.append("0x3".to_string()).expect("append failed");
    assert_eq!(mmr.get_elements_count(), 4);

    let padded = mmr
        .get_peaks(PeaksOptions {
            elements_count: None,
            formatting_opts: Some(PeaksFormattingOptions {
                output_size: 4,
                null_value: "0x0".to_string(),
            }),
        })
        .expect("get_peaks failed");
    assert_eq!(padded.len(), 4);
    assert_eq!(padded[2], "0x0");
    assert_eq!(padded[3], "0x0");

    let unpadded = mmr
        .get_peaks(PeaksOptions {
            elements_count: None,
            formatting_opts: None,
        })
        .expect("get_peaks failed");
    assert_eq!(padded[0], unpadded[0]);
    assert_eq!(padded[1], unpadded[1]);
}

#[test]
fn get_peaks_rejects_too_small_width() {
    // Eleven elements, seven leaves: three live peaks.
    let mut mmr = GuestMMR::new(vec![], 0, 0);
    for i in 1..=7usize {
        mmr.append(format!("0x{}", i)).expect("append failed");
    }
    assert_eq!(mmr.get_elements_count(), 11);
    let result = mmr.get_peaks(PeaksOptions {
        elements_count: None,
        formatting_opts: Some(PeaksFormattingOptions {
            output_size: 2,
            null_value: "0x0".to_string(),
        }),
    });
    assert!(matches!(
        result,
        Err(MMRError::Formatting(FormattingError::PeaksOutputSizeError))
    ));
}

#[test]
fn reconstruction_returns_same_peaks() {
    let mut mmr = GuestMMR::new(vec![], 0, 0);
    for i in 1..=5usize {
        mmr.append(format!("0xa{}", i)).expect("append failed");
    }
    let peaks = mmr
        .get_peaks(PeaksOptions {
            elements_count: None,
            formatting_opts: None,
        })
        .expect("get_peaks failed");
    let elements_count = mmr.get_elements_count();
    let leaves_count = mmr.get_leaves_count();

    // A fresh accumulator built from the persisted peaks and counts
    // returns exactly those peaks.
    let restored = GuestMMR::new(peaks.clone(), elements_count, leaves_count);
    assert_eq!(restored.get_elements_count(), elements_count);
    assert_eq!(restored.get_leaves_count(), leaves_count);
    let restored_peaks = restored
        .get_peaks(PeaksOptions {
            elements_count: None,
            formatting_opts: None,
        })
        .expect("get_peaks failed");
    assert_eq!(restored_peaks, peaks);
}

#[test]
fn hash_is_not_the_identity() {
    // Each arity goes through a different primitive; none returns its
    // input unchanged.
    let single = hash(vec!["0x1".to_string()]).expect("hash failed");
    assert_ne!(single, "0x1");
    assert!(single.starts_with("0x"));

    let pair = hash(vec!["0x1".to_string(), "0x2".to_string()]).expect("hash failed");
    assert_ne!(pair, "0x1");
    assert_ne!(pair, "0x2");
    assert_ne!(pair, single);

    let many = hash(vec![
        "0x1".to_string(),
        "0x2".to_string(),
        "0x3".to_string(),
    ])
    .expect("hash failed");
    assert_ne!(many, pair);

    // Operand order matters for the two-input primitive.
    let swapped = hash(vec!["0x2".to_string(), "0x1".to_string()]).expect("hash failed");
    assert_ne!(pair, swapped);
}

#[test]
fn hash_rejects_empty_input() {
    assert!(matches!(hash(vec![]), Err(MMRError::HashError)));
}

#[test]
fn append_reports_missing_peak_hash() {
    // Valid counts, but no stored peak digest at position 3.
    let mut mmr = GuestMMR::new(vec![], 3, 2);
    let result = mmr.append("0x1".to_string());
    assert!(matches!(result, Err(MMRError::NoHashFoundForIndex(3))));
}

#[test]
fn append_reports_insufficient_peaks() {
    // One stored peak, but a leaf count owing two merges.
    let mut mmr = GuestMMR::new(vec!["0xa".to_string()], 1, 3);
    let result = mmr.append("0x1".to_string());
    assert!(matches!(result, Err(MMRError::InsufficientPeaksForMerge)));
}

#[test]
fn root_hash_binds_the_element_count() {
    let mmr = GuestMMR::new(vec![], 0, 0);
    let bag = "0xabc";
    let root_a = mmr.calculate_root_hash(bag, 3).expect("root failed");
    let root_b = mmr.calculate_root_hash(bag, 4).expect("root failed");
    assert_ne!(root_a, root_b);
}

#[test]
fn error_messages_are_exact() {
    assert_eq!(
        MMRError::NoHashFoundForIndex(3).message(),
        "No hash found for index 3"
    );
    assert_eq!(
        MMRError::InsufficientPeaksForMerge.message(),
        "Insufficient peaks for merge"
    );
    assert_eq!(MMRError::HashError.message(), "Hash error");
    assert_eq!(
        MMRError::Formatting(FormattingError::PeaksOutputSizeError).message(),
        "Formatting error: Formatting: Expected peaks output size is smaller than the actual size"
    );
    assert_eq!(
        FormattingError::PeaksOutputSizeError.message(),
        "Formatting: Expected peaks output size is smaller than the actual size"
    );
}

#[test]
fn decimal_rendering_is_exact() {
    assert_eq!(to_decimal_string(0), "0");
    assert_eq!(to_decimal_string(7), "7");
    assert_eq!(to_decimal_string(10), "10");
    assert_eq!(to_decimal_string(12345), "12345");
}
