//! The optional beacon-chain adapter interface: slot-to-proposer and
//! proposer-to-pubkey lookups. The ingestion core treats an unavailable
//! adapter as routine, not exceptional.

use vstd::prelude::*;

verus! {

/// Why a beacon-chain lookup failed.
#[derive(Clone, Debug)]
pub enum BeaconError {
    NotAvailable,
    SlotNotFound(u64),
    ProposerNotFound(u64),
    Network(Vec<u8>),
}

/// Information about a block proposer: its index and its validator public
/// key as a hex string.
#[derive(Clone, Debug)]
pub struct ProposerInfo {
    pub index: u64,
    pub pubkey: Vec<u8>,
}

/// A beacon-chain adapter, to be implemented against a beacon node: maps a
/// slot to its proposer and a proposer index to its validator public key.
pub trait BeaconAdapter {
    /// The proposer of the given slot, or why it could not be looked up.
    fn get_proposer_for_slot(&self, slot: u64) -> Result<ProposerInfo, BeaconError>;

    /// The validator public key of the given proposer index, or why it
    /// could not be looked up.
    fn get_validator_pubkey(&self, proposer_index: u64) -> Result<Vec<u8>, BeaconError>;
}

/// The null adapter, used when no beacon node is configured: every lookup
/// reports the beacon chain unavailable.
pub struct PlaceholderBeaconAdapter;

impl BeaconAdapter for PlaceholderBeaconAdapter {
    fn get_proposer_for_slot(&self, _slot: u64) -> (r: Result<ProposerInfo, BeaconError>)
        ensures
            r matches Err(e) && e is NotAvailable,
    {
        Err(BeaconError::NotAvailable)
    }

    fn get_validator_pubkey(&self, _proposer_index: u64) -> (r: Result<Vec<u8>, BeaconError>)
        ensures
            r matches Err(e) && e is NotAvailable,
    {
        Err(BeaconError::NotAvailable)
    }
}

} // verus!
