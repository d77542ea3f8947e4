//! The catch-up loop's decisions: where the cursor starts, which block
//! numbers one polling cycle works through, and how the cursor advances
//! under partial failure. The caller performs the fetches, ingestions and
//! sleeps and hands the outcomes back.

use vstd::prelude::*;

verus! {

/// What one block's fetch-and-ingest attempt came to.
#[derive(Clone, Copy, Debug, PartialEq, Eq, Structural)]
pub enum BlockOutcome {
    Ingested,
    NotFound,
    FetchFailed,
    IngestFailed,
}

/// The initial cursor: the chain's current height when configured to skip
/// history, else the store's highest stored block number, zero on an empty
/// store.
pub fn initial_cursor(start_from_latest: bool, latest: u64, stored_max: Option<u64>) -> (r: u64)
    ensures
        start_from_latest ==> r == latest,
        !start_from_latest ==> r == (match stored_max {
            Some(m) => m,
            None => 0u64,
        }),
{
    if start_from_latest {
        latest
    } else {
        match stored_max {
            Some(m) => m,
            None => 0,
        }
    }
}

/// The inclusive range of block numbers one polling cycle works through:
/// the cursor's successor up to the chain height, and nothing when the
/// height is not ahead of the cursor.
pub fn poll_range(cursor: u64, height: u64) -> (r: Option<(u64, u64)>)
    ensures
        r is Some <==> height > cursor,
        r matches Some(p) ==> p.0 == cursor + 1 && p.1 == height,
{
    if height > cursor {
        Some((cursor + 1, height))
    } else {
        None
    }
}

/// The cursor after one block's attempt: it advances to that block's number
/// exactly when the block was ingested, and stays put on any failure.
pub fn advance_cursor(cursor: u64, block_number: u64, outcome: BlockOutcome) -> (r: u64)
    ensures
        outcome is Ingested ==> r == block_number,
        !(outcome is Ingested) ==> r == cursor,
{
    match outcome {
        BlockOutcome::Ingested => block_number,
        _ => cursor,
    }
}

/// Where the cursor stands after a cycle worked through the whole range
/// `cursor+1 ..= cursor+outcomes.len()`, outcome `outcomes[k]` belonging to
/// block `cursor+1+k`: the number of the last ingested block, or the old
/// cursor when none was. The cycle walks the range whole; a mid-range
/// failure does not stop the blocks after it, so the failed block is simply
/// missing (its later retry is made harmless by the store's keyed upserts).
pub open spec fn cycle_cursor(cursor: u64, outcomes: Seq<BlockOutcome>) -> int
    decreases outcomes.len(),
{
    if outcomes.len() == 0 {
        cursor as int
    } else if outcomes.last() is Ingested {
        cursor + outcomes.len()
    } else {
        cycle_cursor(cursor, outcomes.drop_last())
    }
}

/// Replays one polling cycle's outcomes over the cursor, outcome `k`
/// belonging to block `cursor+1+k`.
pub fn apply_cycle_outcomes(cursor: u64, outcomes: &Vec<BlockOutcome>) -> (r: u64)
    requires
        cursor + outcomes@.len() <= u64::MAX,
    ensures
        r == cycle_cursor(cursor, outcomes@),
{
    let mut cur: u64 = cursor;
    let mut k: usize = 0;
    while k < outcomes.len()
        invariant
            k <= outcomes@.len(),
            cursor + outcomes@.len() <= u64::MAX,
            cur == cycle_cursor(cursor, outcomes@.take(k as int)),
        decreases outcomes@.len() - k,
    {
        let n = cursor + (k as u64) + 1;
        cur = advance_cursor(cur, n, outcomes[k]);
        k = k + 1;
        proof {
            assert(outcomes@.take(k as int).drop_last() =~= outcomes@.take(k - 1));
            assert(outcomes@.take(k as int).last() == outcomes@[k - 1]);
        }
    }
    proof {
        assert(outcomes@.take(outcomes@.len() as int) =~= outcomes@);
    }
    cur
}

/// The cursor never moves backwards, and never beyond the top of the range
/// the cycle worked through.
pub proof fn lemma_cycle_cursor_monotone(cursor: u64, outcomes: Seq<BlockOutcome>)
    ensures
        cursor <= cycle_cursor(cursor, outcomes) <= cursor + outcomes.len(),
    decreases outcomes.len(),
{
    if outcomes.len() > 0 && !(outcomes.last() is Ingested) {
        lemma_cycle_cursor_monotone(cursor, outcomes.drop_last());
    }
}

/// When the last block of the range is ingested, the cursor reaches the top
/// of the range whatever happened in the middle: an earlier failed block is
/// skipped, not resumed.
pub proof fn lemma_cycle_reaches_height(cursor: u64, outcomes: Seq<BlockOutcome>)
    requires
        outcomes.len() > 0,
        outcomes.last() is Ingested,
    ensures
        cycle_cursor(cursor, outcomes) == cursor + outcomes.len(),
{
}

} // verus!
