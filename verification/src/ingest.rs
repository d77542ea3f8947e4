//! Block ingestion: extraction of block and transaction fields from the raw
//! values the RPC endpoint hands back, classification of every transaction,
//! and the summary counts the caller logs and emits as metrics.

use vstd::prelude::*;
use crate::analyzer::{summary_of, summary_bytes};
use crate::detectors::{DetectorConfig, TxData, TxView, detect_mev_patterns, detected_reasons,
    selectors_view};
use crate::hexbytes::{hex_value, is_hex_u64, lower_bytes, normalize_hex, parse_hex_u64,
    strip_0x};
use crate::reason::{MevReasonCode, codes_serialized, serialize_reason_codes};
use crate::tagger::ValidatorTagger;

verus! {

/// A transaction as the RPC endpoint hands it back: every field optional,
/// numeric fields as hex byte strings.
#[derive(Clone, Debug)]
pub struct RawTx {
    pub hash: Option<Vec<u8>>,
    pub from: Option<Vec<u8>>,
    pub max_priority_fee_per_gas: Option<Vec<u8>>,
    pub input: Option<Vec<u8>>,
}

/// The mathematical content of a raw transaction.
#[verifier::ext_equal]
pub ghost struct RawTxData {
    pub hash: Option<Seq<u8>>,
    pub from: Option<Seq<u8>>,
    pub max_priority_fee_per_gas: Option<Seq<u8>>,
    pub input: Option<Seq<u8>>,
}

impl DeepView for RawTx {
    type V = RawTxData;

    open spec fn deep_view(&self) -> RawTxData {
        RawTxData {
            hash: self.hash.deep_view(),
            from: self.from.deep_view(),
            max_priority_fee_per_gas: self.max_priority_fee_per_gas.deep_view(),
            input: self.input.deep_view(),
        }
    }
}

/// A block as the RPC endpoint hands it back: every field optional, numeric
/// fields as hex byte strings.
#[derive(Clone, Debug)]
pub struct RawBlock {
    pub number: Option<Vec<u8>>,
    pub hash: Option<Vec<u8>>,
    pub parent_hash: Option<Vec<u8>>,
    pub timestamp: Option<Vec<u8>>,
    pub miner: Option<Vec<u8>>,
    pub base_fee_per_gas: Option<Vec<u8>>,
    pub gas_used: Option<Vec<u8>>,
    pub transactions: Option<Vec<RawTx>>,
}

/// The mathematical content of a raw block.
#[verifier::ext_equal]
pub ghost struct RawBlockData {
    pub number: Option<Seq<u8>>,
    pub hash: Option<Seq<u8>>,
    pub parent_hash: Option<Seq<u8>>,
    pub timestamp: Option<Seq<u8>>,
    pub miner: Option<Seq<u8>>,
    pub base_fee_per_gas: Option<Seq<u8>>,
    pub gas_used: Option<Seq<u8>>,
    pub transactions: Option<Seq<RawTxData>>,
}

impl DeepView for RawBlock {
    type V = RawBlockData;

    open spec fn deep_view(&self) -> RawBlockData {
        RawBlockData {
            number: self.number.deep_view(),
            hash: self.hash.deep_view(),
            parent_hash: self.parent_hash.deep_view(),
            timestamp: self.timestamp.deep_view(),
            miner: self.miner.deep_view(),
            base_fee_per_gas: self.base_fee_per_gas.deep_view(),
            gas_used: self.gas_used.deep_view(),
            transactions: self.transactions.deep_view(),
        }
    }
}

/// Why a block's ingestion was rejected whole: a mandatory field missing or
/// unparsable.
#[derive(Clone, Copy, Debug, PartialEq, Eq, Structural)]
pub enum BlockParseError {
    MissingNumber,
    BadNumber,
    MissingHash,
    MissingParentHash,
    MissingTimestamp,
    BadTimestamp,
    MissingFeeRecipient,
    MissingGasUsed,
    BadGasUsed,
    MissingTransactions,
}

/// The largest value the store's signed 64-bit columns hold.
pub open spec fn i64_max() -> int {
    0x7fff_ffff_ffff_ffff
}

/// Whether a byte string is a hex numeral whose value the store's signed
/// 64-bit columns can hold.
pub open spec fn is_hex_i64(s: Seq<u8>) -> bool {
    is_hex_u64(s) && hex_value(strip_0x(s)) <= i64_max()
}

/// The error a raw block is rejected with, if any: mandatory fields are
/// checked in a fixed order, and a block is accepted exactly when none of
/// them is missing or unparsable.
pub open spec fn block_error_of(b: RawBlockData) -> Option<BlockParseError> {
    match b.number {
        None => Some(BlockParseError::MissingNumber),
        Some(num) => if !is_hex_u64(num) {
            Some(BlockParseError::BadNumber)
        } else {
            match b.hash {
                None => Some(BlockParseError::MissingHash),
                Some(_) => match b.parent_hash {
                    None => Some(BlockParseError::MissingParentHash),
                    Some(_) => match b.timestamp {
                        None => Some(BlockParseError::MissingTimestamp),
                        Some(ts) => if !is_hex_i64(ts) {
                            Some(BlockParseError::BadTimestamp)
                        } else {
                            match b.miner {
                                None => Some(BlockParseError::MissingFeeRecipient),
                                Some(_) => match b.gas_used {
                                    None => Some(BlockParseError::MissingGasUsed),
                                    Some(g) => if !is_hex_i64(g) {
                                        Some(BlockParseError::BadGasUsed)
                                    } else {
                                        match b.transactions {
                                            None => Some(BlockParseError::MissingTransactions),
                                            Some(_) => None,
                                        }
                                    },
                                },
                            }
                        },
                    },
                },
            }
        },
    }
}

/// The parsed priority fee of a raw transaction: absent when the field is
/// missing or not a hex numeral that fits an unsigned 64-bit value.
pub open spec fn fee_of_raw(t: RawTxData) -> Option<u64> {
    match t.max_priority_fee_per_gas {
        Some(s) => if is_hex_u64(s) {
            Some(hex_value(strip_0x(s)) as u64)
        } else {
            None
        },
        None => None,
    }
}

/// The sender recorded when the field is missing.
pub open spec fn unknown_sender() -> Seq<u8> {
    seq![('u' as u8), ('n' as u8), ('k' as u8), ('n' as u8), ('o' as u8), ('w' as u8),
        ('n' as u8)]
}

/// The canonical form of a raw calldata field, as the heuristics and the
/// stored summary read it: lower-cased, with the `0x` prefix removed.
pub open spec fn calldata_norm(inp: Option<Seq<u8>>) -> Seq<u8> {
    match inp {
        Some(s) => strip_0x(lower_bytes(s)),
        None => Seq::empty(),
    }
}

/// The heuristics' view of a raw transaction; the calldata is read in its
/// canonical lower-cased, unprefixed hex form.
pub open spec fn tx_data_of(t: RawTxData) -> TxData {
    TxData {
        sender: match t.from {
            Some(f) => f,
            None => unknown_sender(),
        },
        priority_fee: fee_of_raw(t),
        calldata_hex: calldata_norm(t.input),
    }
}

/// The heuristics' view of a whole transaction list.
pub open spec fn tx_datas_of(txs: Seq<RawTxData>) -> Seq<TxData> {
    txs.map_values(|t: RawTxData| tx_data_of(t))
}

/// The exact sum of the parsed priority fees of a transaction list, a fee
/// counting zero where it is absent or unparsable.
pub open spec fn total_fees_of(txs: Seq<RawTxData>) -> int
    decreases txs.len(),
{
    if txs.len() == 0 {
        0
    } else {
        total_fees_of(txs.drop_last()) + (match fee_of_raw(txs.last()) {
            Some(f) => f as int,
            None => 0,
        })
    }
}

/// The total of a transaction list is non-negative and at most one maximal
/// fee for each transaction.
pub proof fn lemma_total_fees_bound(txs: Seq<RawTxData>)
    ensures
        0 <= total_fees_of(txs) <= txs.len() * (u64::MAX as int),
    decreases txs.len(),
{
    if txs.len() > 0 {
        lemma_total_fees_bound(txs.drop_last());
        assert((txs.len() - 1) * (u64::MAX as int) + (u64::MAX as int) == txs.len() * (
        u64::MAX as int)) by (nonlinear_arith);
    }
}

/// A block's fields once parsed, as the store row holds them; the timestamp
/// is in seconds and fits a signed 64-bit value, as does the gas used.
#[derive(Clone, Debug)]
pub struct BlockRecord {
    pub number: u64,
    pub hash: Vec<u8>,
    pub parent_hash: Vec<u8>,
    pub timestamp: u64,
    pub fee_recipient: Vec<u8>,
    pub base_fee: u64,
    pub gas_used: u64,
    pub total_priority_fees: u128,
    pub is_africa_tagged: bool,
}

/// A transaction's fields once parsed and classified, as the store row
/// holds them.
#[derive(Clone, Debug)]
pub struct TxRecord {
    pub tx_hash: Vec<u8>,
    pub position_index: usize,
    pub sender_address: Vec<u8>,
    pub max_priority_fee: u64,
    pub calldata_summary: Option<Vec<u8>>,
    pub log_summary: Option<Vec<u8>>,
    pub is_mev_candidate: bool,
    pub mev_reason_codes: Option<Vec<u8>>,
}

/// The mathematical content of a stored transaction row.
#[verifier::ext_equal]
pub ghost struct TxRecordData {
    pub tx_hash: Seq<u8>,
    pub position_index: usize,
    pub sender_address: Seq<u8>,
    pub max_priority_fee: u64,
    pub calldata_summary: Option<Seq<u8>>,
    pub log_summary: Option<Seq<u8>>,
    pub is_mev_candidate: bool,
    pub mev_reason_codes: Option<Seq<u8>>,
}

impl DeepView for TxRecord {
    type V = TxRecordData;

    open spec fn deep_view(&self) -> TxRecordData {
        TxRecordData {
            tx_hash: self.tx_hash.deep_view(),
            position_index: self.position_index,
            sender_address: self.sender_address.deep_view(),
            max_priority_fee: self.max_priority_fee,
            calldata_summary: self.calldata_summary.deep_view(),
            log_summary: self.log_summary.deep_view(),
            is_mev_candidate: self.is_mev_candidate,
            mev_reason_codes: self.mev_reason_codes.deep_view(),
        }
    }
}

/// The mathematical content of a stored block row.
#[verifier::ext_equal]
pub ghost struct BlockRecordData {
    pub number: u64,
    pub hash: Seq<u8>,
    pub parent_hash: Seq<u8>,
    pub timestamp: u64,
    pub fee_recipient: Seq<u8>,
    pub base_fee: u64,
    pub gas_used: u64,
    pub total_priority_fees: u128,
    pub is_africa_tagged: bool,
}

impl DeepView for BlockRecord {
    type V = BlockRecordData;

    open spec fn deep_view(&self) -> BlockRecordData {
        BlockRecordData {
            number: self.number,
            hash: self.hash.deep_view(),
            parent_hash: self.parent_hash.deep_view(),
            timestamp: self.timestamp,
            fee_recipient: self.fee_recipient.deep_view(),
            base_fee: self.base_fee,
            gas_used: self.gas_used,
            total_priority_fees: self.total_priority_fees,
            is_africa_tagged: self.is_africa_tagged,
        }
    }
}

/// Whether a raw transaction is kept: only one without a hash is skipped.
pub open spec fn kept(txs: Seq<RawTxData>, i: int) -> bool {
    txs[i].hash is Some
}

/// How many of the first `upto` raw transactions are kept.
pub open spec fn kept_count(txs: Seq<RawTxData>, upto: int) -> int
    decreases upto,
{
    if upto <= 0 {
        0
    } else {
        kept_count(txs, upto - 1) + (if kept(txs, upto - 1) {
            1int
        } else {
            0int
        })
    }
}

/// How many of the first `upto` raw transactions are kept and carry at
/// least one reason code.
pub open spec fn candidate_count(txs: Seq<RawTxData>, sels: Seq<Seq<u8>>, upto: int) -> int
    decreases upto,
{
    if upto <= 0 {
        0
    } else {
        candidate_count(txs, sels, upto - 1) + (if kept(txs, upto - 1) && detected_reasons(
            tx_data_of(txs[upto - 1]),
            tx_datas_of(txs),
            upto - 1,
            sels,
        ).len() > 0 {
            1int
        } else {
            0int
        })
    }
}

/// Counting kept transactions never decreases along the list.
pub proof fn lemma_kept_count_monotone(txs: Seq<RawTxData>, a: int, b: int)
    requires
        a <= b,
    ensures
        kept_count(txs, a) <= kept_count(txs, b),
    decreases b - a,
{
    if a < b {
        lemma_kept_count_monotone(txs, a, b - 1);
    }
}

/// What one stored transaction row holds, given the raw list it came from
/// and its original position in it.
pub open spec fn record_matches(
    rec: TxRecord,
    txs: Seq<RawTxData>,
    i: int,
    sels: Seq<Seq<u8>>,
) -> bool {
    let t = txs[i];
    let reasons = detected_reasons(tx_data_of(t), tx_datas_of(txs), i, sels);
    &&& rec.tx_hash@ == t.hash.unwrap()
    &&& rec.position_index == i
    &&& rec.sender_address@ == (match t.from {
        Some(f) => f,
        None => unknown_sender(),
    })
    &&& rec.max_priority_fee == (match fee_of_raw(t) {
        Some(f) => f,
        None => 0u64,
    })
    &&& rec.calldata_summary.deep_view() == (match t.input {
        Some(s) => Some(summary_of(strip_0x(lower_bytes(s)))),
        None => None::<Seq<u8>>,
    })
    &&& rec.log_summary is None
    &&& rec.is_mev_candidate == (reasons.len() > 0)
    &&& rec.mev_reason_codes.deep_view() == (if reasons.len() > 0 {
        Some(codes_serialized(reasons))
    } else {
        None::<Seq<u8>>
    })
}

/// What one block's ingestion produced: the block row, the kept transaction
/// rows in original order, and the counts the caller logs and emits.
pub struct BlockIngest {
    pub block: BlockRecord,
    pub transactions: Vec<TxRecord>,
    pub transaction_count: usize,
    pub mev_candidate_count: usize,
}

/// Extracts and classifies a raw block. Returns the error the first missing
/// or unparsable mandatory field calls for, and otherwise the parsed block
/// row, one transaction row for every raw transaction that has a hash (in
/// original order; the others are skipped), and the summary counts. The
/// total priority fees are the exact sum over every raw transaction.
pub fn extract_block(
    raw: &RawBlock,
    tagger: &ValidatorTagger,
    config: &DetectorConfig,
) -> (r: Result<BlockIngest, BlockParseError>)
    ensures
        r is Ok <==> block_error_of(raw.deep_view()) is None,
        r matches Err(e) ==> Some(e) == block_error_of(raw.deep_view()),
        r matches Ok(ingest) ==> {
            let b = raw.deep_view();
            let txs = b.transactions.unwrap();
            let sels = selectors_view(*config);
            &&& ingest.block.number == hex_value(strip_0x(b.number.unwrap()))
            &&& ingest.block.hash@ == b.hash.unwrap()
            &&& ingest.block.parent_hash@ == b.parent_hash.unwrap()
            &&& ingest.block.timestamp == hex_value(strip_0x(b.timestamp.unwrap()))
            &&& ingest.block.fee_recipient@ == b.miner.unwrap()
            &&& ingest.block.base_fee == (match b.base_fee_per_gas {
                Some(s) => if is_hex_u64(s) {
                    hex_value(strip_0x(s)) as u64
                } else {
                    0u64
                },
                None => 0u64,
            })
            &&& ingest.block.gas_used == hex_value(strip_0x(b.gas_used.unwrap()))
            &&& ingest.block.total_priority_fees == total_fees_of(txs)
            &&& ingest.block.is_africa_tagged == tagger.is_tagged_spec(b.miner.unwrap())
            &&& ingest.transaction_count == txs.len()
            &&& ingest.mev_candidate_count == candidate_count(txs, sels, txs.len() as int)
            &&& ingest.transactions@.len() == kept_count(txs, txs.len() as int)
            &&& forall|i: int|
                0 <= i < txs.len() && kept(txs, i) ==> record_matches(
                    #[trigger] ingest.transactions@[kept_count(txs, i)],
                    txs,
                    i,
                    sels,
                )
        },
{
    broadcast use crate::hexbytes::lemma_bytes_deep_view;

    let number: u64 = match &raw.number {
        None => {
            return Err(BlockParseError::MissingNumber);
        },
        Some(num) => match parse_hex_u64(num.as_slice()) {
            None => {
                return Err(BlockParseError::BadNumber);
            },
            Some(v) => v,
        },
    };
    let hash: Vec<u8> = match &raw.hash {
        None => {
            return Err(BlockParseError::MissingHash);
        },
        Some(h) => vstd::slice::slice_to_vec(h.as_slice()),
    };
    let parent_hash: Vec<u8> = match &raw.parent_hash {
        None => {
            return Err(BlockParseError::MissingParentHash);
        },
        Some(h) => vstd::slice::slice_to_vec(h.as_slice()),
    };
    let timestamp: u64 = match &raw.timestamp {
        None => {
            return Err(BlockParseError::MissingTimestamp);
        },
        Some(ts) => match parse_hex_u64(ts.as_slice()) {
            None => {
                return Err(BlockParseError::BadTimestamp);
            },
            Some(v) => {
                if v > 0x7fff_ffff_ffff_ffff {
                    return Err(BlockParseError::BadTimestamp);
                }
                v
            },
        },
    };
    let fee_recipient: Vec<u8> = match &raw.miner {
        None => {
            return Err(BlockParseError::MissingFeeRecipient);
        },
        Some(m) => vstd::slice::slice_to_vec(m.as_slice()),
    };
    let base_fee: u64 = match &raw.base_fee_per_gas {
        None => 0,
        Some(s) => match parse_hex_u64(s.as_slice()) {
            None => 0,
            Some(v) => v,
        },
    };
    let gas_used: u64 = match &raw.gas_used {
        None => {
            return Err(BlockParseError::MissingGasUsed);
        },
        Some(g) => match parse_hex_u64(g.as_slice()) {
            None => {
                return Err(BlockParseError::BadGasUsed);
            },
            Some(v) => {
                if v > 0x7fff_ffff_ffff_ffff {
                    return Err(BlockParseError::BadGasUsed);
                }
                v
            },
        },
    };
    let raw_txs: &Vec<RawTx> = match &raw.transactions {
        None => {
            return Err(BlockParseError::MissingTransactions);
        },
        Some(ts) => ts,
    };
    let ghost txs = raw.deep_view().transactions.unwrap();
    proof {
        assert(txs == raw_txs.deep_view());
    }

    let is_africa_tagged = tagger.is_africa_tagged(fee_recipient.as_slice());

    // The heuristics' view of every transaction, in order.
    let mut views: Vec<TxView> = Vec::new();
    let mut i: usize = 0;
    while i < raw_txs.len()
        invariant
            i <= raw_txs@.len(),
            txs == raw_txs.deep_view(),
            views@.len() == i,
            views.deep_view() == tx_datas_of(txs.take(i as int)),
        decreases raw_txs@.len() - i,
    {
        let sender: Vec<u8> = match &raw_txs[i].from {
            Some(f) => vstd::slice::slice_to_vec(f.as_slice()),
            None => {
                let u: Vec<u8> = vec![('u' as u8), ('n' as u8), ('k' as u8), ('n' as u8),
                    ('o' as u8), ('w' as u8), ('n' as u8)];
                proof {
                    assert(u@ =~= unknown_sender());
                }
                u
            },
        };
        let priority_fee: Option<u64> = match &raw_txs[i].max_priority_fee_per_gas {
            Some(s) => parse_hex_u64(s.as_slice()),
            None => None,
        };
        let calldata_hex: Vec<u8> = match &raw_txs[i].input {
            Some(s) => normalize_hex(s.as_slice()),
            None => Vec::new(),
        };
        proof {
            assert(lower_bytes(Seq::<u8>::empty()) =~= Seq::<u8>::empty());
        }
        let ghost views_before = views.deep_view();
        let view = TxView { sender, priority_fee, calldata_hex };
        proof {
            broadcast use crate::hexbytes::lemma_bytes_deep_view;

            assert(txs[i as int] == raw_txs@[i as int].deep_view());
            assert(view.deep_view() =~~= tx_data_of(txs[i as int]));
        }
        views.push(view);
        i = i + 1;
        proof {
            assert(views.deep_view() =~= tx_datas_of(txs.take(i as int))) by {
                assert(views.deep_view().len() == i);
                assert(tx_datas_of(txs.take(i as int)).len() == i);
                assert(forall|j: int|
                    0 <= j < i ==> #[trigger] tx_datas_of(txs.take(i as int))[j] == tx_data_of(
                        txs[j],
                    ));
                assert(forall|j: int|
                    0 <= j < i - 1 ==> #[trigger] views.deep_view()[j] == views_before[j]);
                assert(views.deep_view()[i - 1] == view.deep_view());
            }
        }
    }
    proof {
        assert(txs.take(txs.len() as int) =~= txs);
    }

    // The exact-precision total of the parsed priority fees.
    let mut total: u128 = 0;
    let mut i: usize = 0;
    while i < views.len()
        invariant
            i <= views@.len(),
            views.deep_view() == tx_datas_of(txs),
            txs.len() == views@.len(),
            total == total_fees_of(txs.take(i as int)),
        decreases views@.len() - i,
    {
        proof {
            lemma_total_fees_bound(txs.take(i as int));
            assert(txs.take(i as int).len() * (u64::MAX as int) <= txs.len() * (
            u64::MAX as int)) by (nonlinear_arith)
                requires
                    0 <= i <= txs.len(),
            ;
            assert(txs.len() * (u64::MAX as int) <= (usize::MAX as int) * (u64::MAX as int))
                by (nonlinear_arith)
                requires
                    txs.len() <= usize::MAX as int,
            ;
        }
        match views[i].priority_fee {
            Some(f) => {
                total = total + (f as u128);
            },
            None => {},
        }
        i = i + 1;
        proof {
            assert(txs.take(i as int).drop_last() =~= txs.take(i - 1));
            assert(views.deep_view()[i - 1] == tx_data_of(txs[i - 1]));
            assert(views@[i - 1].priority_fee == fee_of_raw(txs[i - 1]));
        }
    }
    proof {
        assert(txs.take(txs.len() as int) =~= txs);
    }

    // Classify and build the kept transaction rows, in original order.
    let ghost sels = selectors_view(*config);
    let mut records: Vec<TxRecord> = Vec::new();
    let mut mev_candidates: usize = 0;
    let mut i: usize = 0;
    while i < raw_txs.len()
        invariant
            i <= raw_txs@.len(),
            txs == raw_txs.deep_view(),
            views.deep_view() == tx_datas_of(txs),
            txs.len() == views@.len(),
            sels == selectors_view(*config),
            records@.len() == kept_count(txs, i as int),
            mev_candidates == candidate_count(txs, sels, i as int),
            mev_candidates <= i,
            forall|j: int|
                0 <= j < i && kept(txs, j) ==> record_matches(
                    #[trigger] records@[kept_count(txs, j)],
                    txs,
                    j,
                    sels,
                ),
        decreases raw_txs@.len() - i,
    {
        let ghost records_before = records@;
        proof {
            broadcast use crate::hexbytes::lemma_bytes_deep_view;

            assert(txs[i as int] == raw_txs@[i as int].deep_view());
        }
        match &raw_txs[i].hash {
            None => {},
            Some(h) => {
                let tx_hash: Vec<u8> = vstd::slice::slice_to_vec(h.as_slice());
                let reasons: Vec<MevReasonCode> = detect_mev_patterns(&views[i], &views, i,
                    config);
                let is_mev_candidate = reasons.len() > 0;
                let mev_reason_codes: Option<Vec<u8>> = if is_mev_candidate {
                    Some(serialize_reason_codes(&reasons))
                } else {
                    None
                };
                let sender_address: Vec<u8> = vstd::slice::slice_to_vec(
                    views[i].sender.as_slice(),
                );
                let max_priority_fee: u64 = match views[i].priority_fee {
                    Some(f) => f,
                    None => 0,
                };
                let calldata_summary: Option<Vec<u8>> = match &raw_txs[i].input {
                    Some(s) => {
                        let norm = normalize_hex(s.as_slice());
                        Some(summary_bytes(norm.as_slice()))
                    },
                    None => None,
                };
                let rec = TxRecord {
                    tx_hash,
                    position_index: i,
                    sender_address,
                    max_priority_fee,
                    calldata_summary,
                    log_summary: None,
                    is_mev_candidate,
                    mev_reason_codes,
                };
                proof {
                    broadcast use crate::hexbytes::lemma_bytes_deep_view;

                    assert(views.deep_view()[i as int] == views@[i as int].deep_view());
                    assert(tx_datas_of(txs)[i as int] == tx_data_of(txs[i as int]));
                    assert(record_matches(rec, txs, i as int, sels));
                }
                records.push(rec);
                if is_mev_candidate {
                    mev_candidates = mev_candidates + 1;
                }
                proof {
                    assert(records@ == records_before.push(rec));
                    assert(records_before.len() == kept_count(txs, i as int));
                    assert forall|j: int| 0 <= j < i + 1 && kept(txs, j) implies record_matches(
                        #[trigger] records@[kept_count(txs, j)],
                        txs,
                        j,
                        sels,
                    ) by {
                        if j < i {
                            assert(record_matches(records_before[kept_count(txs, j)], txs, j,
                                sels));
                            lemma_kept_count_monotone(txs, 0, j);
                            lemma_kept_count_monotone(txs, j + 1, i as int);
                            assert(0 <= kept_count(txs, j) < kept_count(txs, i as int));
                            assert(records_before.push(rec)[kept_count(txs, j)]
                                == records_before[kept_count(txs, j)]);
                        } else {
                            assert(kept_count(txs, j) == records_before.len());
                            assert(records@[kept_count(txs, j)] == rec);
                        }
                    }
                }
            },
        }
        i = i + 1;
    }
    proof {
        assert(txs.take(txs.len() as int) =~= txs);
    }

    let block = BlockRecord {
        number,
        hash,
        parent_hash,
        timestamp,
        fee_recipient,
        base_fee,
        gas_used,
        total_priority_fees: total,
        is_africa_tagged,
    };
    let transaction_count = raw_txs.len();
    Ok(BlockIngest { block, transactions: records, transaction_count, mev_candidate_count:
        mev_candidates })
}

} // verus!
