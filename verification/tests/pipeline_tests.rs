use guest_mmr::BuildDecision;
use guest_mmr::GuestInput;
use guest_mmr::PipelineError;
use guest_mmr::apply_commit;
use guest_mmr::new_build_state;
use guest_mmr::plan_next_batch;
use guest_mmr::process_batch;
use guest_mmr::validate_state_transition;

#[test]
fn process_batch_from_zero_state() {
    let input = GuestInput {
        initial_peaks: vec![],
        elements_count: 0,
        leaves_count: 0,
        new_elements: vec![
            "0x6c17009d66e34c1d6b7e4d73fd5a105243feb10c7cae9598d60b0fa97d08868".to_string(),
            "0x4998b07fef69c1b1658fcb44d44fa5bb0ca62c835b26fe763ca14b61a6595da".to_string(),
            "0x7337cf1262bf9eeaecffe02776fa1cc9fd35c6fc49303a2b5f39d96a7b46afa".to_string(),
            "0x16fa2f065f204a16db293c9adf370da4e08eea45874692dfa00123b21bbfe81".to_string(),
        ],
    };
    let output = process_batch(input).expect("process_batch failed");
    assert_eq!(output.elements_count, 7);
    assert_eq!(output.leaves_count, 4);
    assert_eq!(output.final_peaks.len(), 1);
    assert_eq!(output.append_results.len(), 4);
    // Leaf positions are strictly increasing in submission order.
    let indices: Vec<usize> = output
        .append_results
        .iter()
        .map(|r| r.element_index)
        .collect();
    assert_eq!(indices, vec![1, 2, 4, 5]);
}

#[test]
fn process_batch_continues_from_prior_state() {
    // First batch from the zero state.
    let first = process_batch(GuestInput {
        initial_peaks: vec![],
        elements_count: 0,
        leaves_count: 0,
        new_elements: vec!["0x1".to_string(), "0x2".to_string()],
    })
    .expect("first batch failed");
    assert_eq!(first.elements_count, 3);
    assert_eq!(first.leaves_count, 2);

    // Second batch starts from the first batch's final state.
    let second = process_batch(GuestInput {
        initial_peaks: first.final_peaks.clone(),
        elements_count: first.elements_count,
        leaves_count: first.leaves_count,
        new_elements: vec!["0x3".to_string(), "0x4".to_string()],
    })
    .expect("second batch failed");
    assert_eq!(second.elements_count, 7);
    assert_eq!(second.leaves_count, 4);
    assert_eq!(second.append_results[0].element_index, 4);
    assert_eq!(second.append_results[1].element_index, 5);
}

#[test]
fn process_batch_rejects_corrupt_state() {
    let result = process_batch(GuestInput {
        initial_peaks: vec![],
        elements_count: 3,
        leaves_count: 2,
        new_elements: vec!["0x1".to_string()],
    });
    assert!(matches!(
        result,
        Err(guest_mmr::MMRError::NoHashFoundForIndex(3))
    ));
}

#[test]
fn build_ranges_descend_to_the_floor() {
    let mut state = new_build_state(10, 0, 4, None, 0);
    let mut ranges = Vec::new();
    loop {
        match plan_next_batch(&state) {
            BuildDecision::Done => break,
            BuildDecision::Process(range) => {
                // Commit with a growing element count.
                let new_count = state.prev_elements_count + 1;
                state = apply_commit(&state, &range, new_count).expect("commit failed");
                ranges.push((range.start, range.end));
            }
        }
    }
    assert_eq!(ranges, vec![(7, 10), (3, 6), (0, 2)]);
}

#[test]
fn build_stops_after_num_batches() {
    let mut state = new_build_state(100, 0, 10, Some(2), 0);
    let mut processed = 0;
    loop {
        match plan_next_batch(&state) {
            BuildDecision::Done => break,
            BuildDecision::Process(range) => {
                let new_count = state.prev_elements_count + 1;
                state = apply_commit(&state, &range, new_count).expect("commit failed");
                processed += 1;
            }
        }
    }
    assert_eq!(processed, 2);
    assert_eq!(state.next_end, 80);
}

#[test]
fn commit_rejects_shrinking_element_count() {
    assert!(matches!(
        validate_state_transition(10, 9),
        Err(PipelineError::InvalidStateTransition)
    ));
    assert!(validate_state_transition(10, 10).is_ok());
    assert!(validate_state_transition(10, 11).is_ok());

    let state = new_build_state(10, 0, 4, None, 5);
    let range = match plan_next_batch(&state) {
        BuildDecision::Process(r) => r,
        BuildDecision::Done => panic!("expected a batch"),
    };
    let result = apply_commit(&state, &range, 4);
    assert!(matches!(result, Err(PipelineError::InvalidStateTransition)));
    // The cursor has not advanced: planning again yields the same range.
    let again = match plan_next_batch(&state) {
        BuildDecision::Process(r) => r,
        BuildDecision::Done => panic!("expected a batch"),
    };
    assert_eq!(again, range);
}
