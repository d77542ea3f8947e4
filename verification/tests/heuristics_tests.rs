use mev_africa::detectors::{
    is_atomic_multiswap, is_high_priority_fee_outlier, is_repeated_sender, is_sandwich_pattern,
    median_fee_doubled,
};
use mev_africa::{detect_mev_patterns, DetectorConfig, MevReasonCode, TransactionAnalyzer, TxView};

fn tx(sender: &[u8], priority_fee: Option<u64>) -> TxView {
    TxView {
        sender: sender.to_vec(),
        priority_fee,
        calldata_hex: Vec::new(),
    }
}

fn tx_with_input(sender: &[u8], priority_fee: Option<u64>, input: &[u8]) -> TxView {
    TxView {
        sender: sender.to_vec(),
        priority_fee,
        calldata_hex: input.to_vec(),
    }
}

const ZERO: &[u8] = b"0x0000000000000000000000000000000000000000";
const ONES: &[u8] = b"0x0101010101010101010101010101010101010101";

#[test]
fn test_high_priority_fee_outlier() {
    let mut block_txs = vec![];
    for i in 0..10 {
        block_txs.push(tx(ZERO, Some(1_000_000_000 + i * 100_000_000)));
    }

    let outlier = tx(ZERO, Some(10_000_000_000));
    let reasons = detect_mev_patterns(&outlier, &block_txs, 10, &DetectorConfig::standard());
    assert!(reasons.contains(&MevReasonCode::HighPriorityFee));
}

#[test]
fn test_repeated_sender() {
    let mut block_txs = vec![];
    for _ in 0..3 {
        block_txs.push(tx(ONES, Some(1_000_000_000)));
    }

    let probe = tx(ONES, Some(1_000_000_000));
    let reasons = detect_mev_patterns(&probe, &block_txs, 0, &DetectorConfig::standard());
    assert!(reasons.contains(&MevReasonCode::RepeatedSender));
}

#[test]
fn test_mev_detection_high_priority_fee() {
    let mut block_txs = vec![];
    for i in 0..10 {
        block_txs.push(tx(ZERO, Some(1_000_000_000 + i * 100_000_000)));
    }

    let outlier = tx(ZERO, Some(10_000_000_000));
    let reasons = detect_mev_patterns(&outlier, &block_txs, 10, &DetectorConfig::standard());
    assert!(!reasons.is_empty());
}

#[test]
fn test_mev_detection_repeated_sender() {
    let mut block_txs = vec![];
    for _ in 0..3 {
        block_txs.push(tx(ONES, Some(1_000_000_000)));
    }

    let probe = tx(ONES, Some(1_000_000_000));
    let reasons = detect_mev_patterns(&probe, &block_txs, 0, &DetectorConfig::standard());
    assert!(!reasons.is_empty());
}

#[test]
fn median_of_even_fee_list_is_mean_of_central_pair() {
    // Doubled median of [1, 2, 3, 4] is 2 + 3.
    assert_eq!(median_fee_doubled(&vec![4, 2, 1, 3]), 5);
    // Doubled median of [10, 20] is 30: the mean 15 exactly.
    assert_eq!(median_fee_doubled(&vec![20, 10]), 30);
}

#[test]
fn median_of_odd_fee_list_is_central_value() {
    // Doubled median of [1, 5, 9] is 2 * 5.
    assert_eq!(median_fee_doubled(&vec![9, 5, 1]), 10);
    assert_eq!(median_fee_doubled(&vec![7]), 14);
}

#[test]
fn empty_fee_list_never_triggers_high_priority_fee() {
    let block_txs = vec![tx(ZERO, None), tx(ONES, None)];
    let probe = tx(ZERO, Some(5));
    assert!(!is_high_priority_fee_outlier(&probe, &block_txs));
}

#[test]
fn boundary_fee_exactly_three_times_median_does_not_trigger() {
    // Sorted fees [1, 1, 1, 3]: median 1. A fee of exactly 3 is not over
    // three times the median; 4 is.
    let at_boundary = vec![tx(ZERO, Some(3)), tx(ONES, Some(1)), tx(ONES, Some(1)), tx(
        ONES,
        Some(1),
    )];
    assert!(!is_high_priority_fee_outlier(&at_boundary[0], &at_boundary));
    let over = vec![tx(ZERO, Some(4)), tx(ONES, Some(1)), tx(ONES, Some(1)), tx(ONES, Some(1))];
    assert!(is_high_priority_fee_outlier(&over[0], &over));
}

#[test]
fn zero_median_never_triggers_high_priority_fee() {
    let block_txs = vec![tx(ONES, Some(0)), tx(ONES, Some(0)), tx(ONES, Some(0))];
    let probe = tx(ZERO, Some(5));
    assert!(!is_high_priority_fee_outlier(&probe, &block_txs));
}

#[test]
fn two_sender_occurrences_do_not_trigger_repeated_sender() {
    let block_txs = vec![tx(ONES, Some(1)), tx(ONES, Some(1)), tx(ZERO, Some(1))];
    assert!(!is_repeated_sender(&block_txs[0], &block_txs, 0));
}

#[test]
fn sender_comparison_is_case_insensitive() {
    let block_txs = vec![
        tx(b"0xAbCd", Some(1)),
        tx(b"0xabcd", Some(1)),
        tx(b"0xABCD", Some(1)),
    ];
    assert!(is_repeated_sender(&block_txs[0], &block_txs, 0));
}

#[test]
fn sandwich_needs_same_sender_before_and_after() {
    let block_txs = vec![tx(ONES, Some(1)), tx(ZERO, Some(1)), tx(ONES, Some(1))];
    // The middle transaction is not sandwiched by its own sender.
    assert!(!is_sandwich_pattern(&block_txs[1], &block_txs, 1));
    // A transaction by the repeated sender placed in the middle is.
    let probe = tx(ONES, Some(1));
    assert!(is_sandwich_pattern(&probe, &block_txs, 1));
    // At the edges the same sender has nothing on one side.
    assert!(!is_sandwich_pattern(&block_txs[0], &block_txs, 0));
    assert!(!is_sandwich_pattern(&block_txs[2], &block_txs, 2));
}

#[test]
fn multiswap_needs_two_selector_matches() {
    let cfg = DetectorConfig::standard();
    let two = tx_with_input(ZERO, None, b"00007ff36ab5ffff414bf389aa");
    assert!(is_atomic_multiswap(&two, &cfg));
    let one = tx_with_input(ZERO, None, b"00007ff36ab5ffff");
    assert!(!is_atomic_multiswap(&one, &cfg));
    let none = tx_with_input(ZERO, None, b"001122");
    assert!(!is_atomic_multiswap(&none, &cfg));
    let empty = tx_with_input(ZERO, None, b"");
    assert!(!is_atomic_multiswap(&empty, &cfg));
}

#[test]
fn extended_preset_knows_more_selectors() {
    let input = b"022c0d9f00472b43f3";
    let probe = tx_with_input(ZERO, None, input);
    assert!(!is_atomic_multiswap(&probe, &DetectorConfig::standard()));
    assert!(is_atomic_multiswap(&probe, &DetectorConfig::extended()));
}

#[test]
fn outlier_block_flags_only_the_outlier() {
    // Ten transactions at 1.0 to 1.9 units and one at 10 units: only the
    // last carries the high-priority-fee code.
    let mut block_txs = vec![];
    for i in 0..10 {
        block_txs.push(tx(ZERO, Some(1_000_000_000 + i * 100_000_000)));
    }
    block_txs.push(tx(ONES, Some(10_000_000_000)));
    let cfg = DetectorConfig::standard();
    for i in 0..10 {
        let reasons = detect_mev_patterns(&block_txs[i], &block_txs, i, &cfg);
        assert!(!reasons.contains(&MevReasonCode::HighPriorityFee));
    }
    let reasons = detect_mev_patterns(&block_txs[10], &block_txs, 10, &cfg);
    assert!(reasons.contains(&MevReasonCode::HighPriorityFee));
}

#[test]
fn repeated_sender_at_three_positions_flags_all_three() {
    // Address A at positions 0, 4 and 7 of an eight-transaction block.
    let a: &[u8] = b"0xaaaa";
    let block_txs = vec![
        tx(a, Some(1)),
        tx(b"0xb1", Some(1)),
        tx(b"0xb2", Some(1)),
        tx(b"0xb3", Some(1)),
        tx(a, Some(1)),
        tx(b"0xb5", Some(1)),
        tx(b"0xb6", Some(1)),
        tx(a, Some(1)),
    ];
    let cfg = DetectorConfig::standard();
    for i in [0usize, 4, 7] {
        let reasons = detect_mev_patterns(&block_txs[i], &block_txs, i, &cfg);
        assert!(reasons.contains(&MevReasonCode::RepeatedSender));
    }
    for i in [1usize, 2, 3, 5, 6] {
        let reasons = detect_mev_patterns(&block_txs[i], &block_txs, i, &cfg);
        assert!(!reasons.contains(&MevReasonCode::RepeatedSender));
    }
}

#[test]
fn lone_sender_at_first_position_is_never_sandwiched() {
    let a: &[u8] = b"0xaaaa";
    let block_txs = vec![tx(a, Some(1)), tx(b"0xb1", Some(1)), tx(b"0xb2", Some(1))];
    let reasons = detect_mev_patterns(&block_txs[0], &block_txs, 0, &DetectorConfig::standard());
    assert!(!reasons.contains(&MevReasonCode::SandwichPattern));
}

#[test]
fn analyzer_reports_codes_and_summary() {
    let a: &[u8] = b"0xaaaa";
    let block_txs = vec![tx(a, Some(1)), tx(a, Some(1)), tx(a, Some(1))];
    let analysis =
        TransactionAnalyzer::analyze(&block_txs[1], &block_txs, 1, &DetectorConfig::standard());
    assert!(analysis.is_mev_candidate);
    assert!(analysis.reason_codes.contains(&MevReasonCode::RepeatedSender));
    assert!(analysis.reason_codes.contains(&MevReasonCode::SandwichPattern));
    assert!(analysis.calldata_summary.is_none());
    assert!(analysis.log_summary.is_none());
}

#[test]
fn analyzer_truncates_long_calldata_at_200_with_ellipsis() {
    let long_input = vec![b'1'; 250];
    let probe = tx_with_input(ZERO, None, &long_input);
    let analysis =
        TransactionAnalyzer::analyze(&probe, &vec![], 0, &DetectorConfig::standard());
    let summary = analysis.calldata_summary.unwrap();
    assert_eq!(summary.len(), 203);
    assert_eq!(&summary[..200], &long_input[..200]);
    assert_eq!(&summary[200..], b"...");
}

#[test]
fn short_calldata_summary_is_kept_whole() {
    let probe = tx_with_input(ZERO, None, b"1234abcd");
    let analysis =
        TransactionAnalyzer::analyze(&probe, &vec![], 0, &DetectorConfig::standard());
    assert_eq!(analysis.calldata_summary.unwrap(), b"1234abcd".to_vec());
}

#[test]
fn raw_input_is_hex_encoded_lower_case() {
    let view = TxView::from_raw_input(b"0xaa".to_vec(), Some(7), &[0x12, 0xAB, 0x00, 0xFF]);
    assert_eq!(view.calldata_hex, b"12ab00ff".to_vec());
    assert_eq!(view.priority_fee, Some(7));
    assert_eq!(view.sender, b"0xaa".to_vec());
}
