//! Per-transaction analysis: the heuristics' verdict together with the
//! stored calldata summary.

use vstd::prelude::*;
use crate::detectors::{DetectorConfig, TxView, detect_mev_patterns, detected_reasons,
    selectors_view};
use crate::reason::MevReasonCode;

verus! {

/// The ellipsis marker appended to a truncated calldata summary.
pub open spec fn ellipsis() -> Seq<u8> {
    seq![('.' as u8), ('.' as u8), ('.' as u8)]
}

/// The stored summary of a hex calldata string: the string itself when it
/// has at most 200 bytes, else its first 200 bytes with the ellipsis marker.
pub open spec fn summary_of(hex: Seq<u8>) -> Seq<u8> {
    if hex.len() > 200 {
        hex.take(200) + ellipsis()
    } else {
        hex
    }
}

/// The calldata summary as stored: absent for empty calldata.
pub open spec fn summary_opt_of(hex: Seq<u8>) -> Option<Seq<u8>> {
    if hex.len() == 0 {
        None
    } else {
        Some(summary_of(hex))
    }
}

/// Builds the summary of a hex calldata string: the string unchanged up to
/// 200 bytes, truncated to 200 with a trailing ellipsis beyond.
pub fn summary_bytes(hex: &[u8]) -> (r: Vec<u8>)
    ensures
        r@ == summary_of(hex@),
{
    if hex.len() <= 200 {
        vstd::slice::slice_to_vec(hex)
    } else {
        let head = vstd::slice::slice_subrange(hex, 0, 200);
        let mut out = vstd::slice::slice_to_vec(head);
        out.push('.' as u8);
        out.push('.' as u8);
        out.push('.' as u8);
        proof {
            assert(out@ =~= summary_of(hex@));
        }
        out
    }
}

/// Builds the stored calldata summary: the hex string unchanged up to 200
/// bytes, truncated to 200 with a trailing ellipsis beyond, absent when the
/// calldata is empty.
pub fn calldata_summary(hex: &[u8]) -> (r: Option<Vec<u8>>)
    ensures
        r.deep_view() == summary_opt_of(hex@),
{
    if hex.len() == 0 {
        return None;
    }
    Some(summary_bytes(hex))
}

/// What the analyzer reports of one transaction.
#[derive(Clone, Debug)]
pub struct TransactionAnalysis {
    pub is_mev_candidate: bool,
    pub reason_codes: Vec<MevReasonCode>,
    pub calldata_summary: Option<Vec<u8>>,
    pub log_summary: Option<Vec<u8>>,
}

/// Analyzer for detecting MEV patterns in transactions.
pub struct TransactionAnalyzer;

impl TransactionAnalyzer {
    /// Analyzes a transaction: runs the four heuristics over the block's
    /// transaction list and builds the calldata summary. Logs are not
    /// fetched, so the log summary is always absent.
    pub fn analyze(
        tx: &TxView,
        block_txs: &Vec<TxView>,
        tx_index: usize,
        config: &DetectorConfig,
    ) -> (r: TransactionAnalysis)
        ensures
            r.reason_codes@ == detected_reasons(
                tx.deep_view(),
                block_txs.deep_view(),
                tx_index as int,
                selectors_view(*config),
            ),
            r.is_mev_candidate == (r.reason_codes@.len() > 0),
            r.calldata_summary.deep_view() == summary_opt_of(tx.calldata_hex@),
            r.log_summary is None,
    {
        let reason_codes = detect_mev_patterns(tx, block_txs, tx_index, config);
        let is_mev_candidate = reason_codes.len() > 0;
        let summary = calldata_summary(tx.calldata_hex.as_slice());
        TransactionAnalysis {
            is_mev_candidate,
            reason_codes,
            calldata_summary: summary,
            log_summary: None,
        }
    }
}

} // verus!
