use mev_africa::{
    extract_block, parse_hex_u64, serialize_reason_codes, to_lower_bytes, BlockParseError,
    DetectorConfig, MevReasonCode, RawBlock, RawTx, ValidatorTagger,
};

fn raw_tx(hash: Option<&[u8]>, from: Option<&[u8]>, fee: Option<&[u8]>, input: Option<&[u8]>)
    -> RawTx {
    RawTx {
        hash: hash.map(|h| h.to_vec()),
        from: from.map(|f| f.to_vec()),
        max_priority_fee_per_gas: fee.map(|f| f.to_vec()),
        input: input.map(|i| i.to_vec()),
    }
}

fn raw_block(txs: Vec<RawTx>) -> RawBlock {
    RawBlock {
        number: Some(b"0x64".to_vec()),
        hash: Some(b"0xabc0".to_vec()),
        parent_hash: Some(b"0xdef0".to_vec()),
        timestamp: Some(b"0x5f5e100".to_vec()),
        miner: Some(b"0xFEED".to_vec()),
        base_fee_per_gas: Some(b"0x07".to_vec()),
        gas_used: Some(b"0x5208".to_vec()),
        transactions: Some(txs),
    }
}

fn empty_tagger() -> ValidatorTagger {
    ValidatorTagger::new(Vec::new())
}

#[test]
fn parse_hex_handles_prefix_bare_and_case() {
    assert_eq!(parse_hex_u64(b"0x1a"), Some(26));
    assert_eq!(parse_hex_u64(b"ff"), Some(255));
    assert_eq!(parse_hex_u64(b"0xFF"), Some(255));
    assert_eq!(parse_hex_u64(b"0x0"), Some(0));
    assert_eq!(parse_hex_u64(b"0xffffffffffffffff"), Some(u64::MAX));
}

#[test]
fn parse_hex_rejects_empty_bad_and_overflow() {
    assert_eq!(parse_hex_u64(b""), None);
    assert_eq!(parse_hex_u64(b"0x"), None);
    assert_eq!(parse_hex_u64(b"0xzz"), None);
    assert_eq!(parse_hex_u64(b"12g4"), None);
    assert_eq!(parse_hex_u64(b"0x10000000000000000"), None);
}

#[test]
fn lower_casing_maps_only_ascii_letters() {
    assert_eq!(to_lower_bytes(b"0xAbCd09ZZ"), b"0xabcd09zz".to_vec());
    assert_eq!(to_lower_bytes(b""), Vec::<u8>::new());
}

#[test]
fn block_fields_are_parsed_exactly() {
    let b = raw_block(vec![]);
    let tagger = empty_tagger();
    let ingest = extract_block(&b, &tagger, &DetectorConfig::extended()).unwrap();
    assert_eq!(ingest.block.number, 100);
    assert_eq!(ingest.block.hash, b"0xabc0".to_vec());
    assert_eq!(ingest.block.parent_hash, b"0xdef0".to_vec());
    assert_eq!(ingest.block.timestamp, 100_000_000);
    assert_eq!(ingest.block.fee_recipient, b"0xFEED".to_vec());
    assert_eq!(ingest.block.base_fee, 7);
    assert_eq!(ingest.block.gas_used, 21000);
    assert_eq!(ingest.block.total_priority_fees, 0);
    assert!(!ingest.block.is_africa_tagged);
    assert_eq!(ingest.transaction_count, 0);
    assert_eq!(ingest.mev_candidate_count, 0);
}

#[test]
fn total_priority_fees_is_exact_sum_with_zero_for_bad_fees() {
    let txs = vec![
        raw_tx(Some(b"0xt1"), Some(b"0xa1"), Some(b"0x10"), None),
        raw_tx(Some(b"0xt2"), Some(b"0xa2"), None, None),
        raw_tx(Some(b"0xt3"), Some(b"0xa3"), Some(b"0x0a"), None),
        raw_tx(Some(b"0xt4"), Some(b"0xa4"), Some(b"0xzz"), None),
    ];
    let b = raw_block(txs);
    let ingest = extract_block(&b, &empty_tagger(), &DetectorConfig::extended()).unwrap();
    assert_eq!(ingest.block.total_priority_fees, 26);
}

#[test]
fn missing_mandatory_fields_reject_the_block() {
    let tagger = empty_tagger();
    let cfg = DetectorConfig::extended();

    let mut b = raw_block(vec![]);
    b.number = None;
    assert!(matches!(extract_block(&b, &tagger, &cfg), Err(BlockParseError::MissingNumber)));

    let mut b = raw_block(vec![]);
    b.number = Some(b"0xzz".to_vec());
    assert!(matches!(extract_block(&b, &tagger, &cfg), Err(BlockParseError::BadNumber)));

    let mut b = raw_block(vec![]);
    b.hash = None;
    assert!(matches!(extract_block(&b, &tagger, &cfg), Err(BlockParseError::MissingHash)));

    let mut b = raw_block(vec![]);
    b.parent_hash = None;
    assert!(matches!(
        extract_block(&b, &tagger, &cfg),
        Err(BlockParseError::MissingParentHash)
    ));

    let mut b = raw_block(vec![]);
    b.timestamp = None;
    assert!(matches!(extract_block(&b, &tagger, &cfg), Err(BlockParseError::MissingTimestamp)));

    let mut b = raw_block(vec![]);
    b.timestamp = Some(b"0xffffffffffffffff".to_vec());
    assert!(matches!(extract_block(&b, &tagger, &cfg), Err(BlockParseError::BadTimestamp)));

    let mut b = raw_block(vec![]);
    b.miner = None;
    assert!(matches!(
        extract_block(&b, &tagger, &cfg),
        Err(BlockParseError::MissingFeeRecipient)
    ));

    let mut b = raw_block(vec![]);
    b.gas_used = None;
    assert!(matches!(extract_block(&b, &tagger, &cfg), Err(BlockParseError::MissingGasUsed)));

    let mut b = raw_block(vec![]);
    b.gas_used = Some(b"0xgg".to_vec());
    assert!(matches!(extract_block(&b, &tagger, &cfg), Err(BlockParseError::BadGasUsed)));

    let mut b = raw_block(vec![]);
    b.transactions = None;
    assert!(matches!(
        extract_block(&b, &tagger, &cfg),
        Err(BlockParseError::MissingTransactions)
    ));
}

#[test]
fn missing_base_fee_defaults_to_zero() {
    let mut b = raw_block(vec![]);
    b.base_fee_per_gas = None;
    let ingest = extract_block(&b, &empty_tagger(), &DetectorConfig::extended()).unwrap();
    assert_eq!(ingest.block.base_fee, 0);
    let mut b = raw_block(vec![]);
    b.base_fee_per_gas = Some(b"junk".to_vec());
    let ingest = extract_block(&b, &empty_tagger(), &DetectorConfig::extended()).unwrap();
    assert_eq!(ingest.block.base_fee, 0);
}

#[test]
fn transaction_without_hash_is_skipped_not_fatal() {
    let txs = vec![
        raw_tx(Some(b"0xt1"), Some(b"0xa1"), Some(b"0x01"), None),
        raw_tx(None, Some(b"0xa2"), Some(b"0x02"), None),
        raw_tx(Some(b"0xt3"), Some(b"0xa3"), Some(b"0x03"), None),
    ];
    let b = raw_block(txs);
    let ingest = extract_block(&b, &empty_tagger(), &DetectorConfig::extended()).unwrap();
    assert_eq!(ingest.transaction_count, 3);
    assert_eq!(ingest.transactions.len(), 2);
    assert_eq!(ingest.transactions[0].position_index, 0);
    assert_eq!(ingest.transactions[0].tx_hash, b"0xt1".to_vec());
    assert_eq!(ingest.transactions[1].position_index, 2);
    assert_eq!(ingest.transactions[1].tx_hash, b"0xt3".to_vec());
    // The skipped transaction's fee still counts into the total.
    assert_eq!(ingest.block.total_priority_fees, 6);
}

#[test]
fn missing_sender_is_recorded_as_unknown() {
    let txs = vec![raw_tx(Some(b"0xt1"), None, Some(b"0x01"), None)];
    let b = raw_block(txs);
    let ingest = extract_block(&b, &empty_tagger(), &DetectorConfig::extended()).unwrap();
    assert_eq!(ingest.transactions[0].sender_address, b"unknown".to_vec());
}

#[test]
fn repeated_sender_block_serializes_reason_codes() {
    let txs = vec![
        raw_tx(Some(b"0xt1"), Some(b"0xa1"), Some(b"0x01"), None),
        raw_tx(Some(b"0xt2"), Some(b"0xa1"), Some(b"0x01"), None),
        raw_tx(Some(b"0xt3"), Some(b"0xa1"), Some(b"0x01"), None),
    ];
    let b = raw_block(txs);
    let ingest = extract_block(&b, &empty_tagger(), &DetectorConfig::extended()).unwrap();
    assert_eq!(ingest.mev_candidate_count, 3);
    for rec in &ingest.transactions {
        assert!(rec.is_mev_candidate);
        assert!(rec.log_summary.is_none());
    }
    // The first and last transactions repeat the sender only; the middle one
    // is also sandwiched by it.
    assert_eq!(
        ingest.transactions[0].mev_reason_codes.as_ref().unwrap(),
        &b"[\"repeated_sender\"]".to_vec()
    );
    assert_eq!(
        ingest.transactions[1].mev_reason_codes.as_ref().unwrap(),
        &b"[\"repeated_sender\",\"sandwich_pattern\"]".to_vec()
    );
    assert_eq!(
        ingest.transactions[2].mev_reason_codes.as_ref().unwrap(),
        &b"[\"repeated_sender\"]".to_vec()
    );
}

#[test]
fn quiet_transaction_has_no_reason_codes() {
    let txs = vec![raw_tx(Some(b"0xt1"), Some(b"0xa1"), Some(b"0x01"), Some(b"0xdeadbeef"))];
    let b = raw_block(txs);
    let ingest = extract_block(&b, &empty_tagger(), &DetectorConfig::extended()).unwrap();
    assert_eq!(ingest.mev_candidate_count, 0);
    assert!(!ingest.transactions[0].is_mev_candidate);
    assert!(ingest.transactions[0].mev_reason_codes.is_none());
    // The stored summary is the canonical hex: lower-cased, unprefixed.
    assert_eq!(
        ingest.transactions[0].calldata_summary.as_ref().unwrap(),
        &b"deadbeef".to_vec()
    );
    assert_eq!(ingest.transactions[0].max_priority_fee, 1);
}

#[test]
fn record_calldata_summary_truncates_at_200() {
    let long_input = vec![b'a'; 230];
    let txs = vec![raw_tx(Some(b"0xt1"), Some(b"0xa1"), None, Some(&long_input))];
    let b = raw_block(txs);
    let ingest = extract_block(&b, &empty_tagger(), &DetectorConfig::extended()).unwrap();
    let summary = ingest.transactions[0].calldata_summary.as_ref().unwrap();
    assert_eq!(summary.len(), 203);
    assert_eq!(&summary[200..], b"...");
}

#[test]
fn fee_recipient_tagging_is_case_insensitive() {
    let tagger = ValidatorTagger::new(vec![b"0xFeEd".to_vec()]);
    let b = raw_block(vec![]);
    let ingest = extract_block(&b, &tagger, &DetectorConfig::extended()).unwrap();
    assert!(ingest.block.is_africa_tagged);
}

#[test]
fn tagger_membership_and_refresh() {
    let mut tagger = ValidatorTagger::new(vec![b"0xAAAA".to_vec(), b"0xbbbb".to_vec()]);
    assert!(tagger.is_africa_tagged(b"0xaaaa"));
    assert!(tagger.is_africa_tagged(b"0xBBBB"));
    assert!(!tagger.is_africa_tagged(b"0xcccc"));
    tagger.refresh(vec![b"0xCCCC".to_vec()]);
    assert!(tagger.is_africa_tagged(b"0xcccc"));
    assert!(!tagger.is_africa_tagged(b"0xaaaa"));
}

#[test]
fn reason_code_tags_are_fixed() {
    assert_eq!(MevReasonCode::HighPriorityFee.as_str(), "high_priority_fee");
    assert_eq!(MevReasonCode::RepeatedSender.as_str(), "repeated_sender");
    assert_eq!(MevReasonCode::AtomicMultiswap.as_str(), "atomic_multiswap");
    assert_eq!(MevReasonCode::SandwichPattern.as_str(), "sandwich_pattern");
}

#[test]
fn reason_codes_serialize_in_emission_order() {
    assert_eq!(serialize_reason_codes(&vec![]), b"[]".to_vec());
    assert_eq!(
        serialize_reason_codes(&vec![MevReasonCode::HighPriorityFee]),
        b"[\"high_priority_fee\"]".to_vec()
    );
    assert_eq!(
        serialize_reason_codes(&vec![
            MevReasonCode::HighPriorityFee,
            MevReasonCode::SandwichPattern
        ]),
        b"[\"high_priority_fee\",\"sandwich_pattern\"]".to_vec()
    );
}

#[test]
fn outlier_block_end_to_end() {
    // Ten transactions at 10 to 19 fee units and one at 100: only the last
    // is marked, with the high-priority-fee code.
    let mut txs = vec![];
    for i in 0..10u64 {
        txs.push(RawTx {
            hash: Some(format!("0xt{}", i).into_bytes()),
            from: Some(format!("0xa{}", i).into_bytes()),
            max_priority_fee_per_gas: Some(format!("0x{:x}", 10 + i).into_bytes()),
            input: None,
        });
    }
    txs.push(RawTx {
        hash: Some(b"0xtout".to_vec()),
        from: Some(b"0xaout".to_vec()),
        max_priority_fee_per_gas: Some(b"0x64".to_vec()),
        input: None,
    });
    let b = raw_block(txs);
    let ingest = extract_block(&b, &empty_tagger(), &DetectorConfig::extended()).unwrap();
    assert_eq!(ingest.mev_candidate_count, 1);
    for i in 0..10 {
        assert!(!ingest.transactions[i].is_mev_candidate);
        assert!(ingest.transactions[i].mev_reason_codes.is_none());
    }
    assert_eq!(
        ingest.transactions[10].mev_reason_codes.as_ref().unwrap(),
        &b"[\"high_priority_fee\"]".to_vec()
    );
}

#[test]
fn repeated_sender_positions_end_to_end() {
    // Address A at positions 0, 4 and 7 of an eight-transaction block: those
    // three rows carry the repeated-sender code, the others carry none.
    let a = b"0xaaaa".to_vec();
    let mut txs = vec![];
    for i in 0..8u64 {
        let from = if i == 0 || i == 4 || i == 7 {
            a.clone()
        } else {
            format!("0xb{}", i).into_bytes()
        };
        txs.push(RawTx {
            hash: Some(format!("0xt{}", i).into_bytes()),
            from: Some(from),
            max_priority_fee_per_gas: Some(b"0x01".to_vec()),
            input: None,
        });
    }
    let b = raw_block(txs);
    let ingest = extract_block(&b, &empty_tagger(), &DetectorConfig::extended()).unwrap();
    assert_eq!(ingest.mev_candidate_count, 3);
    for i in [0usize, 4, 7] {
        let codes = ingest.transactions[i].mev_reason_codes.as_ref().unwrap();
        let text = String::from_utf8(codes.clone()).unwrap();
        assert!(text.contains("repeated_sender"));
    }
    for i in [1usize, 2, 3, 5, 6] {
        assert!(ingest.transactions[i].mev_reason_codes.is_none());
    }
    // Position 4 is also sandwiched by A; the edges are not.
    let middle = String::from_utf8(
        ingest.transactions[4].mev_reason_codes.clone().unwrap(),
    )
    .unwrap();
    assert!(middle.contains("sandwich_pattern"));
    let first = String::from_utf8(
        ingest.transactions[0].mev_reason_codes.clone().unwrap(),
    )
    .unwrap();
    assert!(!first.contains("sandwich_pattern"));
}

#[test]
fn calldata_is_classified_case_normalized_and_unprefixed() {
    // Upper-case prefixed calldata holding two selectors of the preset:
    // classification works on the lower-cased, unprefixed form, and the
    // stored summary is that canonical form.
    let txs = vec![raw_tx(
        Some(b"0xt1"),
        Some(b"0xa1"),
        None,
        Some(b"0X7FF36AB5414BF389"),
    )];
    let b = raw_block(txs);
    let ingest = extract_block(&b, &empty_tagger(), &DetectorConfig::extended()).unwrap();
    assert_eq!(ingest.mev_candidate_count, 1);
    assert!(ingest.transactions[0].is_mev_candidate);
    assert_eq!(
        ingest.transactions[0].mev_reason_codes.as_ref().unwrap(),
        &b"[\"atomic_multiswap\"]".to_vec()
    );
    assert_eq!(
        ingest.transactions[0].calldata_summary.as_ref().unwrap(),
        &b"7ff36ab5414bf389".to_vec()
    );
}
