//! Ingestion-and-classification pipeline for Ethereum block data.
//!
//! The crate tracks a chain of blocks, extracts block and transaction
//! fields from the raw values an RPC endpoint hands back, classifies each
//! transaction against a set of MEV heuristics, tags blocks whose fee
//! recipient belongs to a known validator set, and models the store rows
//! the results are persisted into.

pub mod analyzer;
pub mod beacon;
pub mod catchup;
pub mod detectors;
pub mod hexbytes;
pub mod ingest;
pub mod reason;
pub mod store;
pub mod tagger;

pub use beacon::BeaconAdapter;
pub use beacon::BeaconError;
pub use beacon::PlaceholderBeaconAdapter;
pub use beacon::ProposerInfo;
pub use catchup::BlockOutcome;
pub use catchup::advance_cursor;
pub use catchup::apply_cycle_outcomes;
pub use catchup::initial_cursor;
pub use catchup::poll_range;
pub use store::BlockTable;
pub use store::BuilderRow;
pub use store::BuilderTable;
pub use store::TxTable;
pub use analyzer::TransactionAnalysis;
pub use analyzer::TransactionAnalyzer;
pub use detectors::DetectorConfig;
pub use detectors::TxView;
pub use detectors::detect_mev_patterns;
pub use ingest::BlockIngest;
pub use ingest::BlockParseError;
pub use ingest::BlockRecord;
pub use ingest::RawBlock;
pub use ingest::RawTx;
pub use ingest::TxRecord;
pub use ingest::extract_block;
pub use hexbytes::parse_hex_u64;
pub use hexbytes::to_lower_bytes;
pub use reason::MevReasonCode;
pub use reason::serialize_reason_codes;
pub use tagger::ValidatorTagger;
