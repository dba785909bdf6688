use ckb_merkle_mountain_range::util::MemStore;
use ckb_merkle_mountain_range::MMRStore;
use mmr_oracle::driver::{continue_run, prepare_data, settle_batch};
use mmr_oracle::engine::{
    calculate_root, gen_proof, get_root, judge, verify, EngineError, Proof,
};
use mmr_oracle::oracle::{
    abnormal_items, halts, leaf_entries, leaves_of_mask, positions_of, record, run_count,
    run_oracle, subsets_done, test_data, OnMismatch, Tally,
};
use mmr_oracle::policy::PeakOrder;
use mmr_oracle::position::{
    leaf_index_to_mmr_size, resume_point, ResumePoint, LEAF_LIMIT, SIZE_LIMIT,
};
use mmr_oracle::scope::NumberScope;

const START: ResumePoint = ResumePoint { mmr_size: 0, leaf_next: 0 };

#[test]
fn root_of_seven_leaves_left_to_right() {
    let store = MemStore::default();
    let size = prepare_data(&store, START, 6, 100_000).expect("prepare");
    assert_eq!(size, 11);
    assert_eq!(get_root(&store, size, PeakOrder::LeftToRight), Ok(NumberScope::new(0, 6)));
}

#[test]
fn root_of_three_leaves_right_to_left_is_not_normalized() {
    let store = MemStore::default();
    let size = prepare_data(&store, START, 2, 100_000).expect("prepare");
    assert_eq!(size, 4);
    let root = get_root(&store, size, PeakOrder::RightToLeft).expect("root");
    assert_eq!(root, NumberScope::new(2, 1));
    assert!(!root.is_normalized());
    let found = test_data(&store, 3, &vec![0], PeakOrder::RightToLeft).expect("cycle");
    assert!(found.has_anomaly());
}

#[test]
fn roots_differ_between_the_orders() {
    let store = MemStore::default();
    prepare_data(&store, START, 9, 4).expect("prepare");
    for count in [3u64, 5, 6, 7, 10] {
        let size = leaf_index_to_mmr_size(count - 1);
        let ltr = get_root(&store, size, PeakOrder::LeftToRight).expect("root");
        let rtl = get_root(&store, size, PeakOrder::RightToLeft).expect("root");
        assert_ne!(ltr, rtl, "leaf count {}", count);
    }
}

#[test]
fn proof_of_one_order_fails_under_the_other_root() {
    let store = MemStore::default();
    prepare_data(&store, START, 2, 100_000).expect("prepare");
    let leaves = leaf_entries(&vec![0]).expect("entries");
    let proof = gen_proof(&store, 4, PeakOrder::LeftToRight, positions_of(&leaves)).expect("proof");
    let rtl_root = get_root(&store, 4, PeakOrder::RightToLeft).expect("root");
    let ltr_root = get_root(&store, 4, PeakOrder::LeftToRight).expect("root");
    assert_eq!(verify(&proof, PeakOrder::LeftToRight, ltr_root, leaves.clone()), Ok(true));
    assert_eq!(verify(&proof, PeakOrder::LeftToRight, rtl_root, leaves), Ok(false));
}

#[test]
fn seven_leaves_subset_zero_three_six() {
    let store = MemStore::default();
    prepare_data(&store, START, 6, 100_000).expect("prepare");
    let leaves = vec![0u64, 3, 6];
    let found = test_data(&store, 7, &leaves, PeakOrder::LeftToRight).expect("cycle");
    assert!(found.verified);
    assert_eq!(found.root, NumberScope::new(0, 6));
    assert_eq!(found.proof.mmr_size, 11);
    assert_eq!(
        found.proof.items,
        vec![NumberScope::new(1, 1), NumberScope::new(2, 2), NumberScope::new(4, 5)]
    );
    assert!(!found.has_anomaly());
}

#[test]
fn flipped_order_fails_for_some_subset_of_seven() {
    let store = MemStore::default();
    prepare_data(&store, START, 6, 100_000).expect("prepare");
    let mut failures = 0;
    for mask in 1u128..128 {
        let leaves = leaf_entries(&leaves_of_mask(mask, 7)).expect("entries");
        let root = get_root(&store, 11, PeakOrder::LeftToRight).expect("root");
        let proof =
            gen_proof(&store, 11, PeakOrder::LeftToRight, positions_of(&leaves)).expect("proof");
        if verify(&proof, PeakOrder::RightToLeft, root, leaves) != Ok(true) {
            failures += 1;
        }
    }
    assert!(failures > 0);
}

#[test]
fn every_subset_up_to_eight_leaves_verifies_left_to_right() {
    let store = MemStore::default();
    prepare_data(&store, START, 8, 3).expect("prepare");
    for count in 1..=8u64 {
        let tally = run_count(&store, count, PeakOrder::LeftToRight, OnMismatch::Halt)
            .expect("run");
        assert_eq!(tally.tested, (1u128 << count) - 1);
        assert_eq!(tally.mismatches, 0);
        assert_eq!(tally.first_mismatch, None);
        assert_eq!(tally.anomalous, 0);
    }
}

#[test]
fn oracle_reports_one_tally_per_leaf_count() {
    let store = MemStore::default();
    prepare_data(&store, START, 6, 100_000).expect("prepare");
    let report = run_oracle(&store, 6, PeakOrder::LeftToRight, OnMismatch::Halt).expect("run");
    assert_eq!(report.first_mismatch, None);
    assert_eq!(report.tallies.len(), 6);
    let tested: Vec<u128> = report.tallies.iter().map(|t| t.tested).collect();
    assert_eq!(tested, vec![1, 3, 7, 15, 31, 63]);
}

#[test]
fn changed_proof_value_is_caught() {
    let store = MemStore::default();
    prepare_data(&store, START, 1, 100_000).expect("prepare");
    let leaves = leaf_entries(&vec![0]).expect("entries");
    let root = get_root(&store, 3, PeakOrder::LeftToRight).expect("root");
    let mut proof =
        gen_proof(&store, 3, PeakOrder::LeftToRight, positions_of(&leaves)).expect("proof");
    assert_eq!(proof.items, vec![NumberScope::new(1, 1)]);
    assert_eq!(verify(&proof, PeakOrder::LeftToRight, root, leaves.clone()), Ok(true));
    proof.items[0] = NumberScope::new(1, 2);
    assert_eq!(verify(&proof, PeakOrder::LeftToRight, root, leaves), Ok(false));
}

#[test]
fn changed_root_is_caught() {
    let store = MemStore::default();
    prepare_data(&store, START, 6, 100_000).expect("prepare");
    let leaves = leaf_entries(&vec![2, 5]).expect("entries");
    let proof =
        gen_proof(&store, 11, PeakOrder::LeftToRight, positions_of(&leaves)).expect("proof");
    assert_eq!(
        calculate_root(&proof, PeakOrder::LeftToRight, leaves.clone()),
        Ok(NumberScope::new(0, 6))
    );
    assert_eq!(
        verify(&proof, PeakOrder::LeftToRight, NumberScope::new(0, 7), leaves.clone()),
        Ok(false)
    );
    assert_eq!(verify(&proof, PeakOrder::LeftToRight, NumberScope::new(1, 6), leaves), Ok(false));
}

#[test]
fn judge_compares_by_value() {
    assert_eq!(judge(Ok(NumberScope::new(0, 6)), NumberScope::new(0, 6)), Ok(true));
    assert_eq!(judge(Ok(NumberScope::new(0, 6)), NumberScope::new(0, 5)), Ok(false));
    assert_eq!(
        judge(Err(EngineError::CorruptedProof), NumberScope::new(0, 5)),
        Err(EngineError::CorruptedProof)
    );
}

#[test]
fn resumed_run_fills_the_store_like_a_single_run() {
    let total = 1000u64;
    let whole = MemStore::default();
    let whole_size = prepare_data(&whole, START, total, 64).expect("prepare");
    for stop in [0u64, 1, 63, 64, 65, 500, 999] {
        let parts = MemStore::default();
        prepare_data(&parts, START, stop, 64).expect("prepare");
        let size = prepare_data(&parts, resume_point(Some(stop)), total, 64).expect("resume");
        assert_eq!(size, whole_size);
        for pos in 0..size + 2 {
            assert_eq!((&parts).get_elem(pos), (&whole).get_elem(pos), "position {}", pos);
        }
    }
    assert_eq!((&whole).get_elem(whole_size - 1).expect("read").is_some(), true);
    assert_eq!((&whole).get_elem(whole_size), Ok(None));
}

#[test]
fn nothing_pending_leaves_the_store_alone() {
    let store = MemStore::default();
    let point = ResumePoint { mmr_size: 4, leaf_next: 3 };
    assert_eq!(prepare_data(&store, point, 2, 10), Ok(4));
    assert_eq!((&store).get_elem(0), Ok(None));
}

#[test]
fn root_of_nothing_is_refused() {
    let store = MemStore::default();
    assert_eq!(get_root(&store, 0, PeakOrder::LeftToRight), Err(EngineError::EmptyAccumulator));
    assert_eq!(get_root(&store, 0, PeakOrder::RightToLeft), Err(EngineError::EmptyAccumulator));
}

#[test]
fn missing_peak_is_a_store_inconsistency() {
    let store = MemStore::default();
    assert_eq!(get_root(&store, 3, PeakOrder::LeftToRight), Err(EngineError::InconsistentStore));
    assert_eq!(
        prepare_data(&store, ResumePoint { mmr_size: 1, leaf_next: 1 }, 1, 10),
        Err(EngineError::InconsistentStore)
    );
}

#[test]
fn proof_of_no_leaf_is_refused() {
    let store = MemStore::default();
    prepare_data(&store, START, 2, 100_000).expect("prepare");
    assert_eq!(
        gen_proof(&store, 4, PeakOrder::LeftToRight, vec![]),
        Err(EngineError::InvalidLeaf)
    );
    assert!(test_data(&store, 3, &vec![], PeakOrder::LeftToRight).is_err());
}

#[test]
fn proof_of_a_leaf_beyond_the_size_is_refused() {
    let store = MemStore::default();
    prepare_data(&store, START, 2, 100_000).expect("prepare");
    assert_eq!(
        gen_proof(&store, 4, PeakOrder::RightToLeft, vec![7]),
        Err(EngineError::InvalidLeaf)
    );
}

#[test]
fn proof_of_an_internal_node_is_refused() {
    let store = MemStore::default();
    prepare_data(&store, START, 2, 100_000).expect("prepare");
    assert_eq!(
        gen_proof(&store, 4, PeakOrder::LeftToRight, vec![2]),
        Err(EngineError::NodeProofsNotSupported)
    );
}

#[test]
fn short_proof_is_corrupted() {
    let proof = Proof { mmr_size: 11, items: vec![] };
    let leaves = leaf_entries(&vec![0]).expect("entries");
    assert_eq!(
        verify(&proof, PeakOrder::LeftToRight, NumberScope::new(0, 6), leaves),
        Err(EngineError::CorruptedProof)
    );
}

#[test]
fn sizes_past_the_limit_are_out_of_range() {
    let store = MemStore::default();
    assert_eq!(get_root(&store, SIZE_LIMIT, PeakOrder::LeftToRight), Err(EngineError::OutOfRange));
    assert_eq!(
        gen_proof(&store, 4, PeakOrder::LeftToRight, vec![0, SIZE_LIMIT]),
        Err(EngineError::OutOfRange)
    );
    let proof = Proof { mmr_size: SIZE_LIMIT, items: vec![] };
    assert_eq!(
        calculate_root(&proof, PeakOrder::LeftToRight, vec![(0, NumberScope::new(0, 0))]),
        Err(EngineError::OutOfRange)
    );
    assert_eq!(leaf_entries(&vec![0, u64::MAX]), None);
    assert!(matches!(
        test_data(&store, 3, &vec![u64::MAX], PeakOrder::LeftToRight),
        Err(EngineError::OutOfRange)
    ));
}

#[test]
fn mask_selects_its_set_bits() {
    assert_eq!(leaves_of_mask(0b101, 3), vec![0, 2]);
    assert_eq!(leaves_of_mask(0b1101, 3), vec![0, 2]);
    assert_eq!(leaves_of_mask(0b111, 3), vec![0, 1, 2]);
    assert_eq!(leaves_of_mask(0, 5), Vec::<u64>::new());
    assert_eq!(leaves_of_mask(1u128 << 100, 101), vec![100]);
}

#[test]
fn counter_stops_at_the_first_mask_past_the_full_set() {
    assert!(!subsets_done(1, 3));
    assert!(!subsets_done(7, 3));
    assert!(subsets_done(8, 3));
    assert!(!subsets_done(16, 3));
    assert!(subsets_done(1u128 << 127, 127));
    assert!(!subsets_done(u128::MAX, 128));
}

#[test]
fn entries_pair_position_and_leaf() {
    let entries = leaf_entries(&vec![0, 3, 6]).expect("entries");
    assert_eq!(
        entries,
        vec![
            (0, NumberScope::new(0, 0)),
            (4, NumberScope::new(3, 3)),
            (10, NumberScope::new(6, 6))
        ]
    );
    assert_eq!(positions_of(&entries), vec![0, 4, 10]);
}

#[test]
fn abnormal_items_keeps_only_backward_ranges() {
    let items = vec![NumberScope::new(0, 1), NumberScope::new(2, 1), NumberScope::new(5, 4)];
    assert_eq!(abnormal_items(&items), vec![NumberScope::new(2, 1), NumberScope::new(5, 4)]);
}

#[test]
fn right_to_left_run_counts_anomalies_and_goes_on() {
    let store = MemStore::default();
    prepare_data(&store, START, 2, 100_000).expect("prepare");
    let tally =
        run_count(&store, 3, PeakOrder::RightToLeft, OnMismatch::LogAndContinue).expect("run");
    assert_eq!(tally.tested, 7);
    assert_eq!(tally.anomalous, 7);
}

#[test]
fn scaled_large_run_gives_the_same_answer_twice() {
    let leaves: Vec<u64> = vec![10, 336, 445, 613, 658, 1424, 1893, 6400, 6500, 6524];
    let mut answers = Vec::new();
    for _ in 0..2 {
        let store = MemStore::default();
        let size = prepare_data(&store, START, 6600, 100).expect("prepare");
        assert_eq!(size, leaf_index_to_mmr_size(6600));
        let found = test_data(&store, 6525, &leaves, PeakOrder::LeftToRight).expect("cycle");
        answers.push((found.verified, found.root, found.proof));
    }
    assert_eq!(answers[0], answers[1]);
    assert_eq!(answers[0].1, NumberScope::new(0, 6524));
}

fn tampered_store() -> MemStore<NumberScope> {
    let store = MemStore::default();
    prepare_data(&store, START, 2, 100_000).expect("prepare");
    (&store).append(2, vec![NumberScope::new(100, 200)]).expect("overwrite");
    store
}

#[test]
fn halting_run_stops_at_the_first_mismatch() {
    let store = tampered_store();
    let tally = run_count(&store, 2, PeakOrder::LeftToRight, OnMismatch::Halt).expect("run");
    assert_eq!(tally.first_mismatch, Some(1));
    assert_eq!(tally.tested, 1);
    assert_eq!(tally.mismatches, 1);
}

#[test]
fn continuing_run_counts_every_mismatch() {
    let store = tampered_store();
    let tally =
        run_count(&store, 2, PeakOrder::LeftToRight, OnMismatch::LogAndContinue).expect("run");
    assert_eq!(tally.first_mismatch, Some(1));
    assert_eq!(tally.tested, 3);
    assert_eq!(tally.mismatches, 3);
    assert_eq!(tally.anomalous, 0);
}

#[test]
fn halting_oracle_names_the_failing_count_and_mask() {
    let store = tampered_store();
    let report = run_oracle(&store, 3, PeakOrder::LeftToRight, OnMismatch::Halt).expect("run");
    assert_eq!(report.first_mismatch, Some((2, 1)));
    assert_eq!(report.tallies.len(), 2);
    assert_eq!(report.tallies[0].first_mismatch, None);
    assert_eq!(report.tallies[0].tested, 1);
}

#[test]
fn continuing_oracle_visits_every_count() {
    let store = tampered_store();
    let report =
        run_oracle(&store, 3, PeakOrder::LeftToRight, OnMismatch::LogAndContinue).expect("run");
    assert_eq!(report.first_mismatch, Some((2, 1)));
    assert_eq!(report.tallies.len(), 3);
    assert_eq!(report.tallies[2].tested, 7);
}

#[test]
fn oracle_without_leaf_counts_reports_nothing() {
    let store = MemStore::default();
    let report = run_oracle(&store, 0, PeakOrder::LeftToRight, OnMismatch::Halt).expect("run");
    assert_eq!(report.first_mismatch, None);
    assert!(report.tallies.is_empty());
}

#[test]
fn every_subset_up_to_eight_leaves_verifies_right_to_left() {
    let store = MemStore::default();
    prepare_data(&store, START, 8, 3).expect("prepare");
    for count in 1..=8u64 {
        let tally = run_count(&store, count, PeakOrder::RightToLeft, OnMismatch::LogAndContinue)
            .expect("run");
        assert_eq!(tally.tested, (1u128 << count) - 1);
        assert_eq!(tally.mismatches, 0, "leaf count {}", count);
    }
}

#[test]
fn single_leaf_accumulator_proves_itself() {
    let store = MemStore::default();
    prepare_data(&store, START, 0, 100_000).expect("prepare");
    let found = test_data(&store, 1, &vec![0], PeakOrder::LeftToRight).expect("cycle");
    assert!(found.verified);
    assert_eq!(found.root, NumberScope::new(0, 0));
    assert!(found.proof.items.is_empty());
}

#[test]
fn changed_inner_proof_value_goes_unseen() {
    let store = MemStore::default();
    prepare_data(&store, START, 3, 100_000).expect("prepare");
    let leaves = leaf_entries(&vec![0]).expect("entries");
    let root = get_root(&store, 7, PeakOrder::LeftToRight).expect("root");
    assert_eq!(root, NumberScope::new(0, 3));
    let mut proof =
        gen_proof(&store, 7, PeakOrder::LeftToRight, positions_of(&leaves)).expect("proof");
    assert_eq!(proof.items, vec![NumberScope::new(1, 1), NumberScope::new(2, 3)]);
    proof.items[0] = NumberScope::new(9, 9);
    assert_eq!(verify(&proof, PeakOrder::LeftToRight, root, leaves.clone()), Ok(true));
    proof.items[1] = NumberScope::new(2, 4);
    assert_eq!(verify(&proof, PeakOrder::LeftToRight, root, leaves), Ok(false));
}

#[test]
fn record_counts_one_subset() {
    let zero = Tally { tested: 0, anomalous: 0, mismatches: 0, first_mismatch: None };
    let one = record(zero, 1, false, true);
    assert_eq!(one, Tally { tested: 1, anomalous: 0, mismatches: 0, first_mismatch: None });
    let two = record(one, 2, true, false);
    assert_eq!(two, Tally { tested: 2, anomalous: 1, mismatches: 1, first_mismatch: Some(2) });
    let three = record(two, 3, false, false);
    assert_eq!(three, Tally { tested: 3, anomalous: 1, mismatches: 2, first_mismatch: Some(2) });
}

#[test]
fn only_a_failed_check_under_halt_ends_the_run() {
    assert!(halts(OnMismatch::Halt, false));
    assert!(!halts(OnMismatch::Halt, true));
    assert!(!halts(OnMismatch::LogAndContinue, false));
    assert!(!halts(OnMismatch::LogAndContinue, true));
}

#[test]
fn size_limit_is_the_first_size_refused() {
    assert_eq!(SIZE_LIMIT, (1u64 << 63) - 1);
    assert_eq!(LEAF_LIMIT, (1u64 << 62) - 1);
}

#[test]
fn largest_size_below_the_limit_reaches_the_engine() {
    let store = MemStore::default();
    assert_eq!(
        get_root(&store, SIZE_LIMIT - 1, PeakOrder::LeftToRight),
        Err(EngineError::InconsistentStore)
    );
    assert_eq!(
        get_root(&store, SIZE_LIMIT - 1, PeakOrder::RightToLeft),
        Err(EngineError::InconsistentStore)
    );
    assert_eq!(
        gen_proof(&store, SIZE_LIMIT - 1, PeakOrder::LeftToRight, vec![0]),
        Err(EngineError::InconsistentStore)
    );
    assert_eq!(
        gen_proof(&store, SIZE_LIMIT - 1, PeakOrder::RightToLeft, vec![SIZE_LIMIT - 1]),
        Err(EngineError::NodeProofsNotSupported)
    );
    let proof = Proof { mmr_size: SIZE_LIMIT - 1, items: vec![] };
    let leaves = vec![(0, NumberScope::new(0, 0))];
    assert_eq!(
        verify(&proof, PeakOrder::LeftToRight, NumberScope::new(0, 0), leaves.clone()),
        Err(EngineError::CorruptedProof)
    );
    assert_eq!(
        verify(&proof, PeakOrder::RightToLeft, NumberScope::new(0, 0), leaves),
        Err(EngineError::CorruptedProof)
    );
}

#[test]
fn size_limit_itself_is_refused_everywhere() {
    let store = MemStore::default();
    assert_eq!(get_root(&store, SIZE_LIMIT, PeakOrder::RightToLeft), Err(EngineError::OutOfRange));
    assert_eq!(
        gen_proof(&store, SIZE_LIMIT, PeakOrder::LeftToRight, vec![0]),
        Err(EngineError::OutOfRange)
    );
    let proof = Proof { mmr_size: SIZE_LIMIT, items: vec![] };
    assert_eq!(
        verify(&proof, PeakOrder::LeftToRight, NumberScope::new(0, 0), vec![]),
        Err(EngineError::OutOfRange)
    );
}

#[test]
fn largest_leaf_count_reaches_the_engine() {
    let store = MemStore::default();
    assert!(matches!(
        test_data(&store, LEAF_LIMIT, &vec![0], PeakOrder::LeftToRight),
        Err(EngineError::InconsistentStore)
    ));
    assert!(matches!(
        test_data(&store, LEAF_LIMIT + 1, &vec![0], PeakOrder::LeftToRight),
        Err(EngineError::OutOfRange)
    ));
    assert!(matches!(
        test_data(&store, 3, &vec![LEAF_LIMIT], PeakOrder::LeftToRight),
        Err(EngineError::OutOfRange)
    ));
}

#[test]
fn cycle_on_no_leaves_has_no_root() {
    let store = MemStore::default();
    prepare_data(&store, START, 2, 100_000).expect("prepare");
    assert!(matches!(
        test_data(&store, 0, &vec![0], PeakOrder::LeftToRight),
        Err(EngineError::EmptyAccumulator)
    ));
    assert!(matches!(
        test_data(&store, 0, &vec![], PeakOrder::RightToLeft),
        Err(EngineError::EmptyAccumulator)
    ));
}

#[test]
fn run_past_the_limits_is_refused_before_the_engine() {
    let store = MemStore::default();
    assert_eq!(prepare_data(&store, START, LEAF_LIMIT, 100_000), Err(EngineError::OutOfRange));
    let far = ResumePoint { mmr_size: SIZE_LIMIT, leaf_next: 5 };
    assert_eq!(prepare_data(&store, far, 5, 100_000), Err(EngineError::OutOfRange));
    assert_eq!(prepare_data(&store, far, 4, 100_000), Ok(SIZE_LIMIT));
    assert_eq!((&store).get_elem(0), Ok(None));
}

#[test]
fn batch_of_the_wrong_size_is_not_committed() {
    let store = MemStore::default();
    prepare_data(&store, START, 2, 100_000).expect("prepare");
    let skewed = ResumePoint { mmr_size: 4, leaf_next: 5 };
    assert_eq!(prepare_data(&store, skewed, 5, 100_000), Err(EngineError::InconsistentStore));
    assert_eq!((&store).get_elem(4), Ok(None));
}

#[test]
fn settle_batch_passes_errors_and_checks_the_size() {
    assert_eq!(settle_batch(Ok(()), 11, 11), Ok(11));
    assert_eq!(settle_batch(Ok(()), 10, 11), Err(EngineError::InconsistentStore));
    assert_eq!(
        settle_batch(Err(EngineError::MergeError("x".to_string())), 11, 11),
        Err(EngineError::MergeError("x".to_string()))
    );
}

#[test]
fn continue_run_ends_at_the_last_leaf_or_an_error() {
    assert_eq!(continue_run(Ok(()), 9, 20), Ok(Some(10)));
    assert_eq!(continue_run(Ok(()), 20, 20), Ok(None));
    assert_eq!(continue_run(Ok(()), u64::MAX, u64::MAX), Ok(None));
    assert_eq!(
        continue_run(Err(EngineError::StoreError("disk".to_string())), 9, 20),
        Err(EngineError::StoreError("disk".to_string()))
    );
}

#[test]
fn no_leaves_have_no_subset_to_test() {
    let store = MemStore::default();
    let tally = run_count(&store, 0, PeakOrder::LeftToRight, OnMismatch::Halt).expect("run");
    assert_eq!(tally, Tally { tested: 0, anomalous: 0, mismatches: 0, first_mismatch: None });
}
