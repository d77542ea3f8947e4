use mev_africa::beacon::BeaconAdapter;
use mev_africa::ingest::{BlockRecord, TxRecord};
use mev_africa::store::BlockTable;
use mev_africa::{
    advance_cursor, apply_cycle_outcomes, initial_cursor, poll_range, BeaconError, BlockOutcome,
    BuilderTable, PlaceholderBeaconAdapter, TxTable,
};

#[test]
fn initial_cursor_prefers_chain_height_when_configured() {
    assert_eq!(initial_cursor(true, 500, Some(10)), 500);
    assert_eq!(initial_cursor(true, 500, None), 500);
    assert_eq!(initial_cursor(false, 500, Some(10)), 10);
    assert_eq!(initial_cursor(false, 500, None), 0);
}

#[test]
fn poll_range_is_cursor_successor_to_height() {
    assert_eq!(poll_range(100, 103), Some((101, 103)));
    assert_eq!(poll_range(103, 103), None);
    assert_eq!(poll_range(103, 100), None);
}

#[test]
fn cursor_advances_only_on_ingested_blocks() {
    assert_eq!(advance_cursor(100, 101, BlockOutcome::Ingested), 101);
    assert_eq!(advance_cursor(100, 101, BlockOutcome::FetchFailed), 100);
    assert_eq!(advance_cursor(100, 101, BlockOutcome::IngestFailed), 100);
    assert_eq!(advance_cursor(100, 101, BlockOutcome::NotFound), 100);
}

#[test]
fn failed_midrange_block_is_skipped_not_resumed() {
    // Height moves from cursor 100 to 103 and block 101 fails to parse: the
    // range is walked whole, so the cursor ends at 103 with 101 missing.
    let outcomes = vec![
        BlockOutcome::IngestFailed,
        BlockOutcome::Ingested,
        BlockOutcome::Ingested,
    ];
    assert_eq!(apply_cycle_outcomes(100, &outcomes), 103);
}

#[test]
fn wholly_failed_cycle_leaves_cursor_unchanged() {
    let outcomes = vec![BlockOutcome::FetchFailed, BlockOutcome::IngestFailed];
    assert_eq!(apply_cycle_outcomes(100, &outcomes), 100);
    assert_eq!(apply_cycle_outcomes(100, &vec![]), 100);
}

#[test]
fn trailing_failure_holds_cursor_at_last_success() {
    let outcomes = vec![
        BlockOutcome::Ingested,
        BlockOutcome::Ingested,
        BlockOutcome::NotFound,
    ];
    assert_eq!(apply_cycle_outcomes(100, &outcomes), 102);
}

#[test]
fn first_seen_builder_is_inserted_unknown_and_never_altered() {
    let mut table = BuilderTable::new();
    assert!(!table.exists_builder(b"0xbuilder"));
    table.insert_builder_if_absent(b"0xbuilder".to_vec());
    assert!(table.exists_builder(b"0xbuilder"));
    assert_eq!(table.rows.len(), 1);
    assert_eq!(table.rows[0].fee_recipient, b"0xbuilder".to_vec());
    assert!(!table.rows[0].is_known);
    assert!(table.rows[0].builder_name.is_none());

    // A second block from the same fee recipient leaves the row untouched.
    table.insert_builder_if_absent(b"0xbuilder".to_vec());
    assert_eq!(table.rows.len(), 1);
    assert!(!table.rows[0].is_known);
}

fn sample_record(position_index: usize) -> TxRecord {
    TxRecord {
        tx_hash: b"0xt1".to_vec(),
        position_index,
        sender_address: b"0xa1".to_vec(),
        max_priority_fee: 5,
        calldata_summary: None,
        log_summary: None,
        is_mev_candidate: false,
        mev_reason_codes: None,
    }
}

#[test]
fn reingesting_identical_content_creates_no_duplicate_rows() {
    let mut table = TxTable::new();
    table.upsert_transaction(7, sample_record(0));
    table.upsert_transaction(7, sample_record(1));
    assert_eq!(table.rows.len(), 2);

    // The same block's identical content a second time: same keys, same
    // rows, nothing duplicated.
    table.upsert_transaction(7, sample_record(0));
    table.upsert_transaction(7, sample_record(1));
    assert_eq!(table.rows.len(), 2);
    assert_eq!(table.rows[0].1.tx_hash, b"0xt1".to_vec());

    // The same position under another block id is another row.
    table.upsert_transaction(8, sample_record(0));
    assert_eq!(table.rows.len(), 3);
}

#[test]
fn placeholder_beacon_adapter_is_unavailable() {
    let adapter = PlaceholderBeaconAdapter;
    assert!(matches!(
        adapter.get_proposer_for_slot(123),
        Err(BeaconError::NotAvailable)
    ));
    assert!(matches!(
        adapter.get_validator_pubkey(456),
        Err(BeaconError::NotAvailable)
    ));
}

fn sample_block(number: u64) -> BlockRecord {
    BlockRecord {
        number,
        hash: b"0xh".to_vec(),
        parent_hash: b"0xp".to_vec(),
        timestamp: 1_000,
        fee_recipient: b"0xfee".to_vec(),
        base_fee: 7,
        gas_used: 21_000,
        total_priority_fees: 42,
        is_africa_tagged: false,
    }
}

#[test]
fn block_upsert_replaces_by_number() {
    let mut table = BlockTable::new();
    let id1 = table.upsert_block(sample_block(100));
    let id2 = table.upsert_block(sample_block(101));
    assert_eq!(table.rows.len(), 2);
    assert_ne!(id1, id2);

    // Re-ingesting block 100 overwrites its row in place.
    let id3 = table.upsert_block(sample_block(100));
    assert_eq!(table.rows.len(), 2);
    assert_eq!(id1, id3);
}

#[test]
fn max_block_number_drives_the_cursor() {
    let mut table = BlockTable::new();
    assert_eq!(table.max_block_number(), None);
    table.upsert_block(sample_block(100));
    table.upsert_block(sample_block(97));
    table.upsert_block(sample_block(103));
    assert_eq!(table.max_block_number(), Some(103));
    assert_eq!(initial_cursor(false, 0, table.max_block_number()), 103);
}
