//! The validator tagger: an in-memory set of fee-recipient addresses that
//! answers case-insensitive membership queries. The caller loads the raw
//! values from the store's distinct fee-recipient column and hands them in.

use vstd::prelude::*;
use crate::hexbytes::{lower_bytes, to_lower_bytes};
use crate::detectors::bytes_eq;

verus! {

/// Identifies blocks whose fee recipient belongs to the loaded validator
/// set.
pub struct ValidatorTagger {
    pub entries: Vec<Vec<u8>>,
}

impl ValidatorTagger {
    /// Whether an address is one of the loaded fee recipients, compared
    /// case-normalized.
    pub open spec fn is_tagged_spec(self, addr: Seq<u8>) -> bool {
        exists|i: int|
            0 <= i < self.entries.deep_view().len() && lower_bytes(
                #[trigger] self.entries.deep_view()[i],
            ) == lower_bytes(addr)
    }

    /// Builds the tagger from raw fee-recipient values, storing each
    /// case-normalized. An address is tagged exactly when some loaded value
    /// equals it up to case.
    pub fn new(recipients: Vec<Vec<u8>>) -> (r: ValidatorTagger)
        ensures
            r.entries.deep_view().len() == recipients.deep_view().len(),
            forall|i: int|
                0 <= i < recipients.deep_view().len() ==> #[trigger] r.entries.deep_view()[i]
                    == lower_bytes(recipients.deep_view()[i]),
            forall|a: Seq<u8>|
                #[trigger] r.is_tagged_spec(a) <==> exists|i: int|
                    0 <= i < recipients.deep_view().len() && lower_bytes(
                        #[trigger] recipients.deep_view()[i],
                    ) == lower_bytes(a),
    {
        let mut entries: Vec<Vec<u8>> = Vec::new();
        let mut i: usize = 0;
        while i < recipients.len()
            invariant
                i <= recipients@.len(),
                entries.deep_view().len() == i,
                forall|j: int|
                    0 <= j < i ==> #[trigger] entries.deep_view()[j] == lower_bytes(
                        recipients.deep_view()[j],
                    ),
            decreases recipients@.len() - i,
        {
            let ghost entries_before = entries.deep_view();
            let low = to_lower_bytes(recipients[i].as_slice());
            entries.push(low);
            i = i + 1;
            proof {
                assert(recipients.deep_view()[i - 1] == recipients@[i - 1]@);
                assert forall|j: int| 0 <= j < i implies #[trigger] entries.deep_view()[j]
                    == lower_bytes(recipients.deep_view()[j]) by {
                    if j < i - 1 {
                        assert(entries.deep_view()[j] == entries_before[j]);
                    } else {
                        assert(entries.deep_view()[j] == low@);
                    }
                }
            }
        }
        let r = ValidatorTagger { entries };
        proof {
            assert forall|a: Seq<u8>| #[trigger] r.is_tagged_spec(a) <==> exists|k: int|
                0 <= k < recipients.deep_view().len() && lower_bytes(
                    #[trigger] recipients.deep_view()[k],
                ) == lower_bytes(a) by {
                if r.is_tagged_spec(a) {
                    let k = choose|k: int|
                        0 <= k < r.entries.deep_view().len() && lower_bytes(
                            #[trigger] r.entries.deep_view()[k],
                        ) == lower_bytes(a);
                    crate::hexbytes::lemma_lower_idempotent(recipients.deep_view()[k]);
                }
                if exists|k: int|
                    0 <= k < recipients.deep_view().len() && lower_bytes(
                        #[trigger] recipients.deep_view()[k],
                    ) == lower_bytes(a) {
                    let k = choose|k: int|
                        0 <= k < recipients.deep_view().len() && lower_bytes(
                            #[trigger] recipients.deep_view()[k],
                        ) == lower_bytes(a);
                    crate::hexbytes::lemma_lower_idempotent(recipients.deep_view()[k]);
                    assert(lower_bytes(r.entries.deep_view()[k]) == lower_bytes(a));
                }
            }
        }
        r
    }

    /// Whether a fee recipient is associated with the loaded validators.
    pub fn is_africa_tagged(&self, fee_recipient: &[u8]) -> (r: bool)
        ensures
            r == self.is_tagged_spec(fee_recipient@),
    {
        let target = to_lower_bytes(fee_recipient);
        let mut i: usize = 0;
        while i < self.entries.len()
            invariant
                i <= self.entries@.len(),
                target@ == lower_bytes(fee_recipient@),
                forall|j: int|
                    0 <= j < i ==> lower_bytes(#[trigger] self.entries.deep_view()[j])
                        != lower_bytes(fee_recipient@),
            decreases self.entries@.len() - i,
        {
            let low = to_lower_bytes(self.entries[i].as_slice());
            if bytes_eq(low.as_slice(), target.as_slice()) {
                proof {
                    assert(self.entries.deep_view()[i as int] == self.entries@[i as int]@);
                }
                return true;
            }
            i = i + 1;
            proof {
                assert(self.entries.deep_view()[i - 1] == self.entries@[i - 1]@);
            }
        }
        false
    }

    /// Replaces the loaded set with freshly fetched raw values, each stored
    /// case-normalized; the previous contents are dropped whole.
    pub fn refresh(&mut self, recipients: Vec<Vec<u8>>)
        ensures
            final(self).entries.deep_view().len() == recipients.deep_view().len(),
            forall|i: int|
                0 <= i < recipients.deep_view().len()
                    ==> #[trigger] final(self).entries.deep_view()[i] == lower_bytes(
                    recipients.deep_view()[i],
                ),
    {
        let fresh = ValidatorTagger::new(recipients);
        self.entries = fresh.entries;
    }
}

} // verus!
