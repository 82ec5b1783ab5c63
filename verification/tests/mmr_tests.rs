use guest_mmr::FormattingError;
use guest_mmr::GuestMMR;
use guest_mmr::PeaksFormattingOptions;
use guest_mmr::PeaksOptions;
use guest_mmr::find_peaks;
use guest_mmr::format_peaks;

#[test]
fn test_guest_mmr_initialization() {
    let initial_peaks = vec!["0xabc".to_string(), "0xdef".to_string()];
    let elements_count = 3;
    let leaves_count = 2;
    let guest_mmr = GuestMMR::new(initial_peaks.clone(), elements_count, leaves_count);

    // Check elements and leaves count
    assert_eq!(guest_mmr.get_elements_count(), elements_count);
    assert_eq!(guest_mmr.get_leaves_count(), leaves_count);

    // Check initial peaks are stored correctly
    let peak_positions = find_peaks(elements_count);
    for (peak, pos) in initial_peaks.iter().zip(peak_positions) {
        assert_eq!(guest_mmr.get_hash(pos).unwrap(), *peak);
    }
}

#[test]
fn test_guest_mmr_append() {
    // Initialize an empty GuestMMR
    let initial_peaks = vec![];
    let elements_count = 0;
    let leaves_count = 0;
    let mut guest_mmr = GuestMMR::new(initial_peaks, elements_count, leaves_count);

    // Append a value
    let value = "0x123".to_string();
    let append_result = guest_mmr.append(value.clone()).expect("Append failed");
    // Check counts
    assert_eq!(guest_mmr.get_elements_count(), 1);
    assert_eq!(guest_mmr.get_leaves_count(), 1);

    // Check the new element is stored
    assert_eq!(guest_mmr.get_hash(1).unwrap(), value);

    // Verify append result
    assert_eq!(append_result.leaves_count, 1);
    assert_eq!(append_result.elements_count, 1);
    assert_eq!(append_result.element_index, 1);

    // Verify root hash
    let expected_bag = guest_mmr.bag_the_peaks().expect("Bag the peaks failed");
    let expected_root_hash = guest_mmr
        .calculate_root_hash(&expected_bag, guest_mmr.get_elements_count())
        .expect("Calculate root hash failed");
    assert_eq!(append_result.root_hash, expected_root_hash);
}

#[test]
fn test_guest_mmr_get_peaks() {
    // Initialize GuestMMR and append elements
    let initial_peaks = vec![];
    let elements_count = 0;
    let leaves_count = 0;
    let mut guest_mmr = GuestMMR::new(initial_peaks, elements_count, leaves_count);

    guest_mmr
        .append("0x6c17009d66e34c1d6b7e4d73fd5a105243feb10c7cae9598d60b0fa97d08868".to_string())
        .expect("Append failed");
    guest_mmr
        .append("0x4998b07fef69c1b1658fcb44d44fa5bb0ca62c835b26fe763ca14b61a6595da".to_string())
        .expect("Append failed");
    guest_mmr
        .append("0x7337cf1262bf9eeaecffe02776fa1cc9fd35c6fc49303a2b5f39d96a7b46afa".to_string())
        .expect("Append failed");
    guest_mmr
        .append("0x16fa2f065f204a16db293c9adf370da4e08eea45874692dfa00123b21bbfe81".to_string())
        .expect("Append failed");
    // Get peaks
    let peaks_options = PeaksOptions {
        elements_count: None,
        formatting_opts: None,
    };
    let peaks = guest_mmr
        .get_peaks(peaks_options)
        .expect("Get peaks failed");
    println!("peaks: {:?}", peaks);

    // Expected peaks
    let peaks_indices = find_peaks(guest_mmr.get_elements_count());
    let expected_peaks = guest_mmr
        .retrieve_peaks_hashes(peaks_indices)
        .expect("Retrieve peaks hashes failed");

    assert_eq!(peaks, expected_peaks);
}

#[test]
fn test_guest_mmr_bag_the_peaks() {
    // Initialize GuestMMR and append elements
    let initial_peaks = vec![];
    let elements_count = 0;
    let leaves_count = 0;
    let mut guest_mmr = GuestMMR::new(initial_peaks, elements_count, leaves_count);

    guest_mmr
        .append("0x6c17009d66e34c1d6b7e4d73fd5a105243feb10c7cae9598d60b0fa97d08868".to_string())
        .expect("Append failed");
    guest_mmr
        .append("0x4998b07fef69c1b1658fcb44d44fa5bb0ca62c835b26fe763ca14b61a6595da".to_string())
        .expect("Append failed");
    guest_mmr
        .append("0x7337cf1262bf9eeaecffe02776fa1cc9fd35c6fc49303a2b5f39d96a7b46afa".to_string())
        .expect("Append failed");
    guest_mmr
        .append("0x16fa2f065f204a16db293c9adf370da4e08eea45874692dfa00123b21bbfe81".to_string())
        .expect("Append failed");

    // Bag the peaks
    let bag = guest_mmr.bag_the_peaks().expect("Bag the peaks failed");
    println!("bag: {:?}", bag);

    // Calculate root hash
    let root_hash = guest_mmr
        .calculate_root_hash(&bag, guest_mmr.get_elements_count())
        .expect("Calculate root hash failed");
    println!("root_hash: {:?}", root_hash);
    // Verify root hash is not empty
    assert!(!root_hash.is_empty());
}

#[test]
fn test_format_peaks() {
    let peaks = vec!["0x1".to_string(), "0x2".to_string()];
    let formatting_opts = PeaksFormattingOptions {
        output_size: 4,
        null_value: "0x0".to_string(),
    };

    let formatted_peaks =
        format_peaks(peaks.clone(), &formatting_opts).expect("Format peaks failed");

    let expected_peaks = vec![
        "0x1".to_string(),
        "0x2".to_string(),
        "0x0".to_string(),
        "0x0".to_string(),
    ];

    assert_eq!(formatted_peaks, expected_peaks);
}

#[test]
fn test_format_peaks_error() {
    let peaks = vec!["0x1".to_string(), "0x2".to_string(), "0x3".to_string()];
    let formatting_opts = PeaksFormattingOptions {
        output_size: 2,
        null_value: "0x0".to_string(),
    };

    let result = format_peaks(peaks, &formatting_opts);

    assert!(matches!(result, Err(FormattingError::PeaksOutputSizeError)));
}
