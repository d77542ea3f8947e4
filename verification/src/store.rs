//! In-memory models of the store tables the ingestion writes: blocks keyed
//! by number, transactions keyed by block id and position, builders keyed by
//! fee recipient. Each keyed insertion replaces rather than duplicates, so
//! re-ingesting a block's identical content leaves the tables unchanged.

use vstd::prelude::*;
use crate::detectors::bytes_eq;
use crate::ingest::{BlockRecord, BlockRecordData, TxRecord, TxRecordData};

verus! {

// ---------------------------------------------------------------------------
// Builder table
// ---------------------------------------------------------------------------

/// A builder row: the fee recipient it is keyed by, the optional operator
/// name, and whether the operator is known.
#[derive(Clone, Debug)]
pub struct BuilderRow {
    pub fee_recipient: Vec<u8>,
    pub builder_name: Option<Vec<u8>>,
    pub is_known: bool,
}

/// The mathematical content of a builder row.
#[verifier::ext_equal]
pub ghost struct BuilderRowData {
    pub fee_recipient: Seq<u8>,
    pub builder_name: Option<Seq<u8>>,
    pub is_known: bool,
}

impl DeepView for BuilderRow {
    type V = BuilderRowData;

    open spec fn deep_view(&self) -> BuilderRowData {
        BuilderRowData {
            fee_recipient: self.fee_recipient.deep_view(),
            builder_name: self.builder_name.deep_view(),
            is_known: self.is_known,
        }
    }
}

/// The builder table, keyed by fee recipient: a row is created lazily, as
/// unknown, the first time a fee recipient is observed, and never
/// overwritten once present.
pub struct BuilderTable {
    pub rows: Vec<BuilderRow>,
}

impl BuilderTable {
    /// Every fee recipient keys at most one row.
    pub open spec fn wf(self) -> bool {
        forall|i: int, j: int|
            0 <= i < j < self.rows.deep_view().len() ==> (#[trigger] self.rows.deep_view()[i]).fee_recipient
                != (#[trigger] self.rows.deep_view()[j]).fee_recipient
    }

    /// Whether a row for this fee recipient exists.
    pub open spec fn contains_key(self, fee_recipient: Seq<u8>) -> bool {
        exists|i: int|
            0 <= i < self.rows.deep_view().len() && (#[trigger] self.rows.deep_view()[i]).fee_recipient
                == fee_recipient
    }

    /// An empty builder table.
    pub fn new() -> (r: BuilderTable)
        ensures
            r.wf(),
            r.rows.deep_view().len() == 0,
    {
        BuilderTable { rows: Vec::new() }
    }

    /// Whether a row for this fee recipient exists.
    pub fn exists_builder(&self, fee_recipient: &[u8]) -> (r: bool)
        ensures
            r == self.contains_key(fee_recipient@),
    {
        let mut i: usize = 0;
        while i < self.rows.len()
            invariant
                i <= self.rows@.len(),
                forall|j: int|
                    0 <= j < i ==> (#[trigger] self.rows.deep_view()[j]).fee_recipient
                        != fee_recipient@,
            decreases self.rows@.len() - i,
        {
            if bytes_eq(self.rows[i].fee_recipient.as_slice(), fee_recipient) {
                proof {
                    broadcast use crate::hexbytes::lemma_bytes_deep_view;

                    assert(self.rows.deep_view()[i as int] == self.rows@[i as int].deep_view());
                }
                return true;
            }
            i = i + 1;
            proof {
                broadcast use crate::hexbytes::lemma_bytes_deep_view;

                assert(self.rows.deep_view()[i - 1] == self.rows@[i - 1].deep_view());
            }
        }
        false
    }

    /// Inserts the fee recipient as an unknown builder when no row for it
    /// exists yet; an existing row, known or unknown, is left untouched.
    pub fn insert_builder_if_absent(&mut self, fee_recipient: Vec<u8>)
        requires
            old(self).wf(),
        ensures
            final(self).wf(),
            final(self).contains_key(fee_recipient@),
            old(self).contains_key(fee_recipient@) ==> final(self).rows.deep_view() == old(
                self,
            ).rows.deep_view(),
            !old(self).contains_key(fee_recipient@) ==> final(self).rows.deep_view() == old(
                self,
            ).rows.deep_view().push(
                BuilderRowData { fee_recipient: fee_recipient@, builder_name: None, is_known:
                    false },
            ),
    {
        if self.exists_builder(fee_recipient.as_slice()) {
            return;
        }
        let ghost before = self.rows.deep_view();
        let row = BuilderRow { fee_recipient, builder_name: None, is_known: false };
        proof {
            broadcast use crate::hexbytes::lemma_bytes_deep_view;
        }
        self.rows.push(row);
        proof {
            broadcast use crate::hexbytes::lemma_bytes_deep_view;

            assert(self.rows.deep_view() =~= before.push(row.deep_view()));
            assert(self.rows.deep_view()[before.len() as int].fee_recipient
                == row.fee_recipient@);
            assert forall|i: int, j: int|
                0 <= i < j < self.rows.deep_view().len() implies (
            #[trigger] self.rows.deep_view()[i]).fee_recipient != (
            #[trigger] self.rows.deep_view()[j]).fee_recipient by {
                if j == self.rows.deep_view().len() - 1 {
                    assert(self.rows.deep_view()[i] == before[i]);
                }
            }
        }
    }
}

// ---------------------------------------------------------------------------
// Transaction table
// ---------------------------------------------------------------------------

/// The key of a stored transaction row: the owning block's durable id and
/// the position index within the block.
pub open spec fn tx_key(row: (u64, TxRecordData)) -> (u64, usize) {
    (row.0, row.1.position_index)
}

/// The transaction table, keyed by block id and position index: inserting a
/// key that is present replaces the row, it never duplicates it.
pub struct TxTable {
    pub rows: Vec<(u64, TxRecord)>,
}

impl TxTable {
    /// Every key holds at most one row.
    pub open spec fn wf(self) -> bool {
        forall|i: int, j: int|
            0 <= i < j < self.rows.deep_view().len() ==> tx_key(
                #[trigger] self.rows.deep_view()[i],
            ) != tx_key(#[trigger] self.rows.deep_view()[j])
    }

    /// Whether a row with this key exists.
    pub open spec fn contains_key(self, k: (u64, usize)) -> bool {
        exists|i: int|
            0 <= i < self.rows.deep_view().len() && tx_key(#[trigger] self.rows.deep_view()[i])
                == k
    }

    /// The table as a map from key to row content.
    pub open spec fn table_map(self) -> Map<(u64, usize), TxRecordData> {
        Map::new(
            |k: (u64, usize)| self.contains_key(k),
            |k: (u64, usize)|
                {
                    let i = choose|i: int|
                        0 <= i < self.rows.deep_view().len() && tx_key(
                            #[trigger] self.rows.deep_view()[i],
                        ) == k;
                    self.rows.deep_view()[i].1
                },
        )
    }

    /// An empty transaction table.
    pub fn new() -> (r: TxTable)
        ensures
            r.wf(),
            r.table_map() == Map::<(u64, usize), TxRecordData>::empty(),
    {
        let r = TxTable { rows: Vec::new() };
        proof {
            assert(r.table_map() =~= Map::<(u64, usize), TxRecordData>::empty());
        }
        r
    }

    /// Inserts or replaces the row keyed by the block id and the record's
    /// position index: a second insertion with the same key overwrites, so
    /// the table never holds duplicate rows for one transaction.
    pub fn upsert_transaction(&mut self, block_id: u64, rec: TxRecord)
        requires
            old(self).wf(),
        ensures
            final(self).wf(),
            final(self).table_map() == old(self).table_map().insert(
                (block_id, rec.position_index),
                rec.deep_view(),
            ),
    {
        let ghost before = self.rows.deep_view();
        let ghost k = (block_id, rec.position_index);
        let mut i: usize = 0;
        while i < self.rows.len()
            invariant
                i <= self.rows@.len(),
                old(self).wf(),
                self.rows.deep_view() == before,
                before == old(self).rows.deep_view(),
                forall|j: int| 0 <= j < i ==> tx_key(#[trigger] before[j]) != k,
                k == (block_id, rec.position_index),
            decreases self.rows@.len() - i,
        {
            if self.rows[i].0 == block_id && self.rows[i].1.position_index
                == rec.position_index {
                let ghost idx = i as int;
                proof {
                    assert(tx_key(before[idx]) == k);
                }
                self.rows[i] = (block_id, rec);
                proof {
                    assert(self.rows.deep_view() =~= before.update(
                        idx,
                        self.rows@[idx].deep_view(),
                    ));
                    lemma_tx_table_update(*old(self), *self, idx, k, before[idx].1,
                        self.rows.deep_view()[idx].1);
                }
                return;
            }
            i = i + 1;
        }
        let ghost idx = self.rows@.len() as int;
        self.rows.push((block_id, rec));
        proof {
            assert(self.rows.deep_view() =~= before.push(self.rows@[idx].deep_view()));
            assert(tx_key(self.rows.deep_view()[idx]) == k);
            assert forall|a: int, b: int|
                0 <= a < b < self.rows.deep_view().len() implies tx_key(
                #[trigger] self.rows.deep_view()[a],
            ) != tx_key(#[trigger] self.rows.deep_view()[b]) by {
                if b == idx {
                    assert(self.rows.deep_view()[a] == before[a]);
                }
            }
            assert((*self).table_map() =~= old(self).table_map().insert(k, rec.deep_view()))
                by {
                assert forall|q: (u64, usize)| #[trigger]
                    (*self).contains_key(q) == (old(self).contains_key(q) || q == k) by {
                    if (*self).contains_key(q) {
                        let w = choose|w: int|
                            0 <= w < (*self).rows.deep_view().len() && tx_key(
                                #[trigger] (*self).rows.deep_view()[w],
                            ) == q;
                        if w < idx {
                            assert(tx_key(before[w]) == q);
                        }
                    }
                    if old(self).contains_key(q) {
                        let w = choose|w: int|
                            0 <= w < before.len() && tx_key(#[trigger] before[w]) == q;
                        assert(tx_key((*self).rows.deep_view()[w]) == q);
                    }
                    if q == k {
                        assert(tx_key((*self).rows.deep_view()[idx]) == q);
                    }
                }
                assert forall|q: (u64, usize)| (*self).contains_key(q) implies (*self).table_map()[q]
                    == old(self).table_map().insert(k, rec.deep_view())[q] by {
                    let w = choose|w: int|
                        0 <= w < (*self).rows.deep_view().len() && tx_key(
                            #[trigger] (*self).rows.deep_view()[w],
                        ) == q;
                    if q == k {
                        assert(w == idx);
                    } else {
                        assert(w < idx);
                        assert(tx_key(before[w]) == q);
                        let w2 = choose|w2: int|
                            0 <= w2 < before.len() && tx_key(#[trigger] before[w2]) == q;
                        assert(w2 == w);
                    }
                }
            }
        }
    }
}

/// Replacing the one row that holds a key updates the table map at that key
/// and nowhere else.
proof fn lemma_tx_table_update(
    told: TxTable,
    tnew: TxTable,
    idx: int,
    k: (u64, usize),
    old_rec: TxRecordData,
    new_rec: TxRecordData,
)
    requires
        told.wf(),
        0 <= idx < told.rows.deep_view().len(),
        tx_key(told.rows.deep_view()[idx]) == k,
        tnew.rows.deep_view() == told.rows.deep_view().update(
            idx,
            (k.0, new_rec),
        ),
        new_rec.position_index == k.1,
    ensures
        tnew.wf(),
        tnew.table_map() == told.table_map().insert(k, new_rec),
{
    let bv = told.rows.deep_view();
    let nv = tnew.rows.deep_view();
    assert(nv.len() == bv.len());
    assert(tx_key(nv[idx]) == k);
    assert forall|i: int, j: int|
        0 <= i < j < nv.len() implies tx_key(#[trigger] nv[i]) != tx_key(
        #[trigger] nv[j],
    ) by {
        if i != idx {
            assert(nv[i] == bv[i]);
        }
        if j != idx {
            assert(nv[j] == bv[j]);
        }
        assert(tx_key(bv[i]) != tx_key(bv[j]));
    }
    assert(tnew.table_map() =~= told.table_map().insert(k, new_rec)) by {
        assert forall|q: (u64, usize)| #[trigger]
            tnew.contains_key(q) == (told.contains_key(q) || q == k) by {
            if tnew.contains_key(q) {
                let w = choose|w: int| 0 <= w < nv.len() && tx_key(#[trigger] nv[w]) == q;
                if w != idx {
                    assert(tx_key(bv[w]) == q);
                }
            }
            if told.contains_key(q) {
                let w = choose|w: int| 0 <= w < bv.len() && tx_key(#[trigger] bv[w]) == q;
                if w != idx {
                    assert(tx_key(nv[w]) == q);
                } else {
                    assert(tx_key(nv[idx]) == q);
                }
            }
            if q == k {
                assert(tx_key(nv[idx]) == q);
            }
        }
        assert forall|q: (u64, usize)| tnew.contains_key(q) implies tnew.table_map()[q]
            == told.table_map().insert(k, new_rec)[q] by {
            let w = choose|w: int| 0 <= w < nv.len() && tx_key(#[trigger] nv[w]) == q;
            if q == k {
                assert(w == idx);
            } else {
                assert(w != idx);
                assert(tx_key(bv[w]) == q);
                let w2 = choose|w2: int| 0 <= w2 < bv.len() && tx_key(#[trigger] bv[w2]) == q;
                assert(w2 == w);
            }
        }
    }
}

/// Upserting the same key with the same content twice leaves the table as
/// one upsert left it: re-ingesting a block's identical content creates no
/// duplicate transaction rows and changes nothing.
pub proof fn lemma_upsert_idempotent(
    m: Map<(u64, usize), TxRecordData>,
    k: (u64, usize),
    v: TxRecordData,
)
    ensures
        m.insert(k, v).insert(k, v) == m.insert(k, v),
{
    assert(m.insert(k, v).insert(k, v) =~= m.insert(k, v));
}

// ---------------------------------------------------------------------------
// Block table
// ---------------------------------------------------------------------------

/// The block table, keyed by block number: inserting a number that is
/// present replaces the row, it never duplicates it; the row's index is the
/// durable identifier transaction rows are linked by.
pub struct BlockTable {
    pub rows: Vec<BlockRecord>,
}

impl BlockTable {
    /// Every block number keys at most one row.
    pub open spec fn wf(self) -> bool {
        forall|i: int, j: int|
            0 <= i < j < self.rows.deep_view().len() ==> (#[trigger] self.rows.deep_view()[i]).number
                != (#[trigger] self.rows.deep_view()[j]).number
    }

    /// Whether a row with this block number exists.
    pub open spec fn contains_number(self, number: u64) -> bool {
        exists|i: int|
            0 <= i < self.rows.deep_view().len() && (#[trigger] self.rows.deep_view()[i]).number
                == number
    }

    /// The table as a map from block number to row content.
    pub open spec fn block_map(self) -> Map<u64, BlockRecordData> {
        Map::new(
            |n: u64| self.contains_number(n),
            |n: u64|
                {
                    let i = choose|i: int|
                        0 <= i < self.rows.deep_view().len() && (
                        #[trigger] self.rows.deep_view()[i]).number == n;
                    self.rows.deep_view()[i]
                },
        )
    }

    /// An empty block table.
    pub fn new() -> (r: BlockTable)
        ensures
            r.wf(),
            r.block_map() == Map::<u64, BlockRecordData>::empty(),
            r.rows.deep_view().len() == 0,
    {
        let r = BlockTable { rows: Vec::new() };
        proof {
            assert(r.block_map() =~= Map::<u64, BlockRecordData>::empty());
        }
        r
    }

    /// Inserts or replaces the row keyed by the record's block number and
    /// returns its durable identifier: once a number is stored, a second
    /// insertion overwrites that row in place, it never duplicates it.
    pub fn upsert_block(&mut self, rec: BlockRecord) -> (id: usize)
        requires
            old(self).wf(),
        ensures
            final(self).wf(),
            final(self).block_map() == old(self).block_map().insert(
                rec.number,
                rec.deep_view(),
            ),
            id < final(self).rows.deep_view().len(),
            final(self).rows.deep_view()[id as int] == rec.deep_view(),
    {
        let ghost before = self.rows.deep_view();
        let number = rec.number;
        let mut i: usize = 0;
        while i < self.rows.len()
            invariant
                i <= self.rows@.len(),
                old(self).wf(),
                self.rows.deep_view() == before,
                before == old(self).rows.deep_view(),
                forall|j: int| 0 <= j < i ==> (#[trigger] before[j]).number != number,
                number == rec.number,
            decreases self.rows@.len() - i,
        {
            if self.rows[i].number == number {
                let ghost idx = i as int;
                proof {
                    assert(before[idx].number == number);
                }
                self.rows[i] = rec;
                proof {
                    assert(self.rows.deep_view() =~= before.update(
                        idx,
                        self.rows@[idx].deep_view(),
                    ));
                    lemma_block_table_update(*old(self), *self, idx, number);
                }
                return i;
            }
            i = i + 1;
        }
        let ghost idx = self.rows@.len() as int;
        let id = self.rows.len();
        self.rows.push(rec);
        proof {
            assert(self.rows.deep_view() =~= before.push(self.rows@[idx].deep_view()));
            assert(self.rows.deep_view()[idx].number == number);
            assert forall|a: int, b: int|
                0 <= a < b < self.rows.deep_view().len() implies (
            #[trigger] self.rows.deep_view()[a]).number != (
            #[trigger] self.rows.deep_view()[b]).number by {
                if b == idx {
                    assert(self.rows.deep_view()[a] == before[a]);
                }
            }
            assert((*self).block_map() =~= old(self).block_map().insert(
                number,
                self.rows.deep_view()[idx],
            )) by {
                assert forall|q: u64| #[trigger]
                    (*self).contains_number(q) == (old(self).contains_number(q) || q == number)
                    by {
                    if (*self).contains_number(q) {
                        let w = choose|w: int|
                            0 <= w < (*self).rows.deep_view().len() && (
                            #[trigger] (*self).rows.deep_view()[w]).number == q;
                        if w < idx {
                            assert(before[w].number == q);
                        }
                    }
                    if old(self).contains_number(q) {
                        let w = choose|w: int|
                            0 <= w < before.len() && (#[trigger] before[w]).number == q;
                        assert((*self).rows.deep_view()[w].number == q);
                    }
                    if q == number {
                        assert((*self).rows.deep_view()[idx].number == q);
                    }
                }
                assert forall|q: u64| (*self).contains_number(q) implies (*self).block_map()[q]
                    == old(self).block_map().insert(number, self.rows.deep_view()[idx])[q] by {
                    let w = choose|w: int|
                        0 <= w < (*self).rows.deep_view().len() && (
                        #[trigger] (*self).rows.deep_view()[w]).number == q;
                    if q == number {
                        assert(w == idx);
                    } else {
                        assert(w < idx);
                        assert(before[w].number == q);
                        let w2 = choose|w2: int|
                            0 <= w2 < before.len() && (#[trigger] before[w2]).number == q;
                        assert(w2 == w);
                    }
                }
            }
        }
        id
    }

    /// The highest stored block number, absent on an empty table: where the
    /// catch-up cursor resumes from.
    pub fn max_block_number(&self) -> (r: Option<u64>)
        ensures
            r is None <==> self.rows.deep_view().len() == 0,
            r matches Some(m) ==> self.contains_number(m) && forall|i: int|
                0 <= i < self.rows.deep_view().len() ==> (#[trigger] self.rows.deep_view()[i]).number
                    <= m,
    {
        if self.rows.len() == 0 {
            return None;
        }
        let mut best: u64 = self.rows[0].number;
        proof {
            assert(self.rows.deep_view()[0].number == best);
        }
        let mut i: usize = 1;
        while i < self.rows.len()
            invariant
                1 <= i <= self.rows@.len(),
                self.contains_number(best),
                forall|j: int|
                    0 <= j < i ==> (#[trigger] self.rows.deep_view()[j]).number <= best,
            decreases self.rows@.len() - i,
        {
            if self.rows[i].number > best {
                best = self.rows[i].number;
                proof {
                    assert(self.rows.deep_view()[i as int].number == best);
                }
            }
            i = i + 1;
            proof {
                assert(self.rows.deep_view()[i - 1] == self.rows@[i - 1].deep_view());
            }
        }
        Some(best)
    }
}

/// Replacing the one row that holds a block number updates the block map at
/// that number and nowhere else.
proof fn lemma_block_table_update(told: BlockTable, tnew: BlockTable, idx: int, number: u64)
    requires
        told.wf(),
        0 <= idx < told.rows.deep_view().len(),
        told.rows.deep_view()[idx].number == number,
        tnew.rows.deep_view() == told.rows.deep_view().update(
            idx,
            tnew.rows.deep_view()[idx],
        ),
        tnew.rows.deep_view().len() == told.rows.deep_view().len(),
        tnew.rows.deep_view()[idx].number == number,
    ensures
        tnew.wf(),
        tnew.block_map() == told.block_map().insert(number, tnew.rows.deep_view()[idx]),
{
    let bv = told.rows.deep_view();
    let nv = tnew.rows.deep_view();
    assert forall|i: int, j: int|
        0 <= i < j < nv.len() implies (#[trigger] nv[i]).number != (#[trigger] nv[j]).number by {
        if i != idx {
            assert(nv[i] == bv[i]);
        }
        if j != idx {
            assert(nv[j] == bv[j]);
        }
        assert(bv[i].number != bv[j].number);
    }
    assert(tnew.block_map() =~= told.block_map().insert(number, nv[idx])) by {
        assert forall|q: u64| #[trigger]
            tnew.contains_number(q) == (told.contains_number(q) || q == number) by {
            if tnew.contains_number(q) {
                let w = choose|w: int| 0 <= w < nv.len() && (#[trigger] nv[w]).number == q;
                if w != idx {
                    assert(bv[w].number == q);
                }
            }
            if told.contains_number(q) {
                let w = choose|w: int| 0 <= w < bv.len() && (#[trigger] bv[w]).number == q;
                if w != idx {
                    assert(nv[w].number == q);
                } else {
                    assert(nv[idx].number == q);
                }
            }
            if q == number {
                assert(nv[idx].number == q);
            }
        }
        assert forall|q: u64| tnew.contains_number(q) implies tnew.block_map()[q]
            == told.block_map().insert(number, nv[idx])[q] by {
            let w = choose|w: int| 0 <= w < nv.len() && (#[trigger] nv[w]).number == q;
            if q == number {
                assert(w == idx);
            } else {
                assert(w != idx);
                assert(bv[w].number == q);
                let w2 = choose|w2: int| 0 <= w2 < bv.len() && (#[trigger] bv[w2]).number == q;
                assert(w2 == w);
            }
        }
    }
}

} // verus!
