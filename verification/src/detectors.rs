//! The four MEV detection heuristics: pure, deterministic functions over a
//! block's transaction list, each proved equal to its mathematical trigger
//! condition.

use vstd::prelude::*;
use vstd::relations::{sorted_by, total_ordering, reflexive, antisymmetric, transitive,
    strongly_connected};
use vstd::seq_lib::lemma_sorted_unique;
use vstd::multiset::Multiset;
use crate::hexbytes::{lower_bytes, hex_bytes_of, hex_encode_bytes, to_lower_bytes};
use crate::reason::MevReasonCode;

verus! {

/// The mathematical content of a transaction, as the heuristics read it:
/// the sender address bytes as given (comparison is case-normalized), the
/// parsed priority fee (absent when the field was missing or unparsable),
/// and the hex-encoded calldata.
#[verifier::ext_equal]
pub ghost struct TxData {
    pub sender: Seq<u8>,
    pub priority_fee: Option<u64>,
    pub calldata_hex: Seq<u8>,
}

/// The per-transaction fields the heuristics read.
#[derive(Clone, Debug)]
pub struct TxView {
    pub sender: Vec<u8>,
    pub priority_fee: Option<u64>,
    pub calldata_hex: Vec<u8>,
}

impl DeepView for TxView {
    type V = TxData;

    open spec fn deep_view(&self) -> TxData {
        TxData {
            sender: self.sender@,
            priority_fee: self.priority_fee,
            calldata_hex: self.calldata_hex@,
        }
    }
}

impl TxView {
    /// Builds the heuristic view of a transaction from its raw calldata
    /// bytes, hex-encoding the calldata.
    pub fn from_raw_input(sender: Vec<u8>, priority_fee: Option<u64>, input: &[u8]) -> (r: TxView)
        ensures
            r.deep_view() == (TxData {
                sender: sender@,
                priority_fee: priority_fee,
                calldata_hex: hex_bytes_of(input@),
            }),
    {
        let calldata_hex = hex_encode_bytes(input);
        TxView { sender, priority_fee, calldata_hex }
    }
}

/// The ordered set of 4-byte function-selector substrings the multiswap
/// heuristic scans for.
#[derive(Clone, Debug)]
pub struct DetectorConfig {
    pub selectors: Vec<Vec<u8>>,
}

/// The selector list as a sequence of byte strings.
pub open spec fn selectors_view(cfg: DetectorConfig) -> Seq<Seq<u8>> {
    cfg.selectors.deep_view()
}

pub open spec fn sel_swap_exact_eth() -> Seq<u8> {
    seq![('7' as u8), ('f' as u8), ('f' as u8), ('3' as u8), ('6' as u8), ('a' as u8),
        ('b' as u8), ('5' as u8)]
}

pub open spec fn sel_exact_input_single() -> Seq<u8> {
    seq![('4' as u8), ('1' as u8), ('4' as u8), ('b' as u8), ('f' as u8), ('3' as u8),
        ('8' as u8), ('9' as u8)]
}

pub open spec fn sel_multicall() -> Seq<u8> {
    seq![('5' as u8), ('c' as u8), ('1' as u8), ('1' as u8), ('d' as u8), ('7' as u8),
        ('9' as u8), ('5' as u8)]
}

pub open spec fn sel_swap() -> Seq<u8> {
    seq![('0' as u8), ('2' as u8), ('2' as u8), ('c' as u8), ('0' as u8), ('d' as u8),
        ('9' as u8), ('f' as u8)]
}

pub open spec fn sel_swap_supporting_fee() -> Seq<u8> {
    seq![('4' as u8), ('7' as u8), ('2' as u8), ('b' as u8), ('4' as u8), ('3' as u8),
        ('f' as u8), ('3' as u8)]
}

/// The three-selector preset.
pub open spec fn standard_selectors() -> Seq<Seq<u8>> {
    seq![sel_swap_exact_eth(), sel_exact_input_single(), sel_multicall()]
}

/// The five-selector preset.
pub open spec fn extended_selectors() -> Seq<Seq<u8>> {
    seq![sel_swap(), sel_swap_supporting_fee(), sel_multicall(), sel_swap_exact_eth(),
        sel_exact_input_single()]
}

impl DetectorConfig {
    /// The three-selector preset: swapExactETHForTokens, exactInputSingle,
    /// multicall.
    pub fn standard() -> (r: DetectorConfig)
        ensures
            selectors_view(r) == standard_selectors(),
    {
        let s1: Vec<u8> = vec![('7' as u8), ('f' as u8), ('f' as u8), ('3' as u8),
            ('6' as u8), ('a' as u8), ('b' as u8), ('5' as u8)];
        let s2: Vec<u8> = vec![('4' as u8), ('1' as u8), ('4' as u8), ('b' as u8),
            ('f' as u8), ('3' as u8), ('8' as u8), ('9' as u8)];
        let s3: Vec<u8> = vec![('5' as u8), ('c' as u8), ('1' as u8), ('1' as u8),
            ('d' as u8), ('7' as u8), ('9' as u8), ('5' as u8)];
        let r = DetectorConfig { selectors: vec![s1, s2, s3] };
        proof {
            assert(selectors_view(r) =~~= standard_selectors());
        }
        r
    }

    /// The five-selector preset used on the per-block ingestion path: swap,
    /// swapExactTokensForTokensSupportingFeeOnTransferTokens, multicall,
    /// swapExactETHForTokens, exactInputSingle.
    pub fn extended() -> (r: DetectorConfig)
        ensures
            selectors_view(r) == extended_selectors(),
    {
        let s1: Vec<u8> = vec![('0' as u8), ('2' as u8), ('2' as u8), ('c' as u8),
            ('0' as u8), ('d' as u8), ('9' as u8), ('f' as u8)];
        let s2: Vec<u8> = vec![('4' as u8), ('7' as u8), ('2' as u8), ('b' as u8),
            ('4' as u8), ('3' as u8), ('f' as u8), ('3' as u8)];
        let s3: Vec<u8> = vec![('5' as u8), ('c' as u8), ('1' as u8), ('1' as u8),
            ('d' as u8), ('7' as u8), ('9' as u8), ('5' as u8)];
        let s4: Vec<u8> = vec![('7' as u8), ('f' as u8), ('f' as u8), ('3' as u8),
            ('6' as u8), ('a' as u8), ('b' as u8), ('5' as u8)];
        let s5: Vec<u8> = vec![('4' as u8), ('1' as u8), ('4' as u8), ('b' as u8),
            ('f' as u8), ('3' as u8), ('8' as u8), ('9' as u8)];
        let r = DetectorConfig { selectors: vec![s1, s2, s3, s4, s5] };
        proof {
            assert(selectors_view(r) =~~= extended_selectors());
        }
        r
    }
}

/// Whether two byte strings are equal.
pub fn bytes_eq(a: &[u8], b: &[u8]) -> (r: bool)
    ensures
        r == (a@ == b@),
{
    if a.len() != b.len() {
        return false;
    }
    let mut i: usize = 0;
    while i < a.len()
        invariant
            a@.len() == b@.len(),
            i <= a@.len(),
            forall|j: int| 0 <= j < i ==> a@[j] == b@[j],
        decreases a@.len() - i,
    {
        if a[i] != b[i] {
            return false;
        }
        i = i + 1;
    }
    proof {
        assert(a@ =~= b@);
    }
    true
}

/// Whether two transactions were signed by the same address, compared
/// case-normalized.
pub open spec fn same_sender(a: TxData, b: TxData) -> bool {
    lower_bytes(a.sender) == lower_bytes(b.sender)
}

// ---------------------------------------------------------------------------
// Median of the block's priority fees
// ---------------------------------------------------------------------------

/// The priority fees present in a transaction list, in list order;
/// transactions without a parsed fee contribute nothing.
pub open spec fn fees_of(txs: Seq<TxData>) -> Seq<u64>
    decreases txs.len(),
{
    if txs.len() == 0 {
        Seq::empty()
    } else {
        fees_of(txs.drop_last()) + (match txs.last().priority_fee {
            Some(f) => seq![f],
            None => Seq::empty(),
        })
    }
}

/// The ascending order on fees that the median sorts by.
pub open spec fn fee_leq() -> spec_fn(u64, u64) -> bool {
    |x: u64, y: u64| x <= y
}

/// The fee list sorted ascending.
pub open spec fn sorted_fees(fees: Seq<u64>) -> Seq<u64> {
    fees.sort_by(fee_leq())
}

/// Twice the median of a non-empty fee list: for an even count, the sum of
/// the two middle values of the sorted list (twice their arithmetic mean);
/// for an odd count, twice the exact middle value. Working with the doubled
/// value keeps the half-unit precision of an even-length mean exact.
pub open spec fn median_doubled(fees: Seq<u64>) -> int
    recommends
        fees.len() > 0,
{
    let s = sorted_fees(fees);
    if fees.len() % 2 == 0 {
        s[fees.len() as int / 2 - 1] + s[fees.len() as int / 2]
    } else {
        2 * s[fees.len() as int / 2]
    }
}

/// The fee order is a total ordering.
pub proof fn lemma_fee_leq_total()
    ensures
        total_ordering(fee_leq()),
{
    let r = fee_leq();
    assert forall|x: u64| #[trigger] r(x, x) by {}
    assert(reflexive(r));
    assert forall|x: u64, y: u64| #[trigger] r(x, y) && #[trigger] r(y, x) implies x == y by {}
    assert(antisymmetric(r));
    assert forall|x: u64, y: u64, z: u64| #[trigger] r(x, y) && #[trigger] r(y, z) implies r(
        x,
        z,
    ) by {}
    assert(transitive(r));
    assert forall|x: u64, y: u64| !(#[trigger] r(x, y)) implies #[trigger] r(y, x) by {}
    assert(strongly_connected(r));
}

/// Collects the priority fees present in a transaction list, in list order.
fn collect_fees(txs: &Vec<TxView>) -> (r: Vec<u64>)
    ensures
        r@ == fees_of(txs.deep_view()),
{
    let mut out: Vec<u64> = Vec::new();
    let mut i: usize = 0;
    while i < txs.len()
        invariant
            i <= txs@.len(),
            out@ == fees_of(txs.deep_view().take(i as int)),
        decreases txs@.len() - i,
    {
        match txs[i].priority_fee {
            Some(f) => {
                out.push(f);
            },
            None => {},
        }
        i = i + 1;
        proof {
            let dv = txs.deep_view();
            assert(dv.take(i as int).drop_last() =~= dv.take(i - 1));
            assert(dv.take(i as int).last() == dv[i - 1]);
            assert(dv[i - 1] == txs@[i - 1].deep_view());
            assert(out@ =~= fees_of(dv.take(i as int)));
        }
    }
    proof {
        assert(txs.deep_view().take(txs@.len() as int) =~= txs.deep_view());
    }
    out
}

/// An ascending copy of a fee list, equal to the sorted sequence the median
/// is defined over.
fn sorted_copy(input: &Vec<u64>) -> (r: Vec<u64>)
    ensures
        r@ == sorted_fees(input@),
{
    let mut src: Vec<u64> = Vec::new();
    let mut i: usize = 0;
    while i < input.len()
        invariant
            i <= input@.len(),
            src@ == input@.take(i as int),
        decreases input@.len() - i,
    {
        src.push(input[i]);
        i = i + 1;
        proof {
            assert(src@ =~= input@.take(i as int));
        }
    }
    proof {
        assert(input@.take(input@.len() as int) =~= input@);
    }
    let mut out: Vec<u64> = Vec::new();
    proof {
        broadcast use vstd::seq_lib::group_to_multiset_ensures;
        broadcast use vstd::multiset::group_multiset_axioms;

        assert(out@.to_multiset() =~= Multiset::<u64>::empty()) by {
            assert(out@.to_multiset().len() == 0);
        }
        assert(out@.to_multiset().add(src@.to_multiset()) =~= input@.to_multiset());
    }
    while src.len() > 0
        invariant
            out@.to_multiset().add(src@.to_multiset()) =~= input@.to_multiset(),
            sorted_by(out@, fee_leq()),
            forall|a: int, b: int|
                0 <= a < out@.len() && 0 <= b < src@.len() ==> out@[a] <= src@[b],
        decreases src@.len(),
    {
        let ghost src_before = src@;
        let ghost out_before = out@;
        let mut m: usize = 0;
        let mut j: usize = 1;
        while j < src.len()
            invariant
                src@.len() > 0,
                m < j,
                j <= src@.len(),
                forall|k: int| 0 <= k < j ==> src@[m as int] <= src@[k],
            decreases src@.len() - j,
        {
            if src[j] < src[m] {
                m = j;
            }
            j = j + 1;
        }
        let v = src.remove(m);
        out.push(v);
        proof {
            broadcast use vstd::seq_lib::group_to_multiset_ensures;
            broadcast use vstd::multiset::group_multiset_axioms;

            assert(src_before.to_multiset().count(v) > 0) by {
                assert(src_before[m as int] == v);
                assert(src_before.contains(v));
            }
            assert(out@ == out_before.push(v));
            assert(out_before.push(v).to_multiset() =~= out_before.to_multiset().insert(v));
            assert(src@ == src_before.remove(m as int));
            assert(src_before.remove(m as int).to_multiset() == src_before.to_multiset().remove(
                v,
            ));
            assert(out@.to_multiset().add(src@.to_multiset()) =~= input@.to_multiset());
            assert(sorted_by(out@, fee_leq())) by {
                assert(forall|a: int, b: int|
                    0 <= a < b < out@.len() ==> fee_leq()(out@[a], out@[b]));
            }
            assert forall|a: int, b: int|
                0 <= a < out@.len() && 0 <= b < src@.len() implies out@[a] <= src@[b] by {
                assert(src@[b] == src_before[if b < m { b } else { b + 1 }]);
                if a < out@.len() - 1 {
                    assert(out@[a] == out_before[a]);
                } else {
                    assert(out@[a] == v);
                }
            }
        }
    }
    proof {
        broadcast use vstd::seq_lib::group_to_multiset_ensures;
        broadcast use vstd::multiset::group_multiset_axioms;

        assert(src@ =~= Seq::<u64>::empty());
        assert(src@.to_multiset() =~= Multiset::<u64>::empty()) by {
            assert(src@.to_multiset().len() == 0);
        }
        assert(out@.to_multiset() =~= input@.to_multiset());
        input@.lemma_sort_by_ensures(fee_leq());
        lemma_fee_leq_total();
        lemma_sorted_unique(out@, sorted_fees(input@), fee_leq());
        assert(out@ == sorted_fees(input@));
    }
    out
}

/// Twice the median of a non-empty fee list.
pub fn median_fee_doubled(fees: &Vec<u64>) -> (md: u128)
    requires
        fees@.len() > 0,
    ensures
        md == median_doubled(fees@),
{
    let s = sorted_copy(fees);
    let n = s.len();
    assert(s@.len() == fees@.len()) by {
        fees@.lemma_sort_by_ensures(fee_leq());
        assert(s@.to_multiset().len() == fees@.to_multiset().len());
        broadcast use vstd::seq_lib::group_to_multiset_ensures;

    }
    if n % 2 == 0 {
        (s[n / 2 - 1] as u128) + (s[n / 2] as u128)
    } else {
        2 * (s[n / 2] as u128)
    }
}

/// The high-priority-fee trigger: the transaction's fee is present, the
/// block's fee list is non-empty with a positive median, and the fee is
/// strictly more than three times the median.
pub open spec fn high_priority_fee_triggers(fee: Option<u64>, txs: Seq<TxData>) -> bool {
    match fee {
        None => false,
        Some(f) => {
            let fees = fees_of(txs);
            fees.len() > 0 && median_doubled(fees) > 0 && 2 * f > 3 * median_doubled(fees)
        },
    }
}

/// Whether a transaction's priority fee is unusually high relative to the
/// block median.
pub fn is_high_priority_fee_outlier(tx: &TxView, block_txs: &Vec<TxView>) -> (r: bool)
    ensures
        r == high_priority_fee_triggers(tx.priority_fee, block_txs.deep_view()),
{
    let f: u64 = match tx.priority_fee {
        Some(f) => f,
        None => {
            return false;
        },
    };
    if f == 0 {
        return false;
    }
    let fees = collect_fees(block_txs);
    if fees.len() == 0 {
        return false;
    }
    let md = median_fee_doubled(&fees);
    md > 0 && 2 * (f as u128) > 3 * md
}

// ---------------------------------------------------------------------------
// Repeated sender
// ---------------------------------------------------------------------------

/// How many transactions of the list a sender signed, compared
/// case-normalized.
pub open spec fn sender_count(txs: Seq<TxData>, sender: Seq<u8>) -> int
    decreases txs.len(),
{
    if txs.len() == 0 {
        0
    } else {
        sender_count(txs.drop_last(), sender) + (if lower_bytes(txs.last().sender)
            == lower_bytes(sender) {
            1int
        } else {
            0int
        })
    }
}

/// The repeated-sender trigger: the sender appears in at least three
/// transactions of the block, the transaction itself counted.
pub open spec fn repeated_sender_triggers(tx: TxData, txs: Seq<TxData>) -> bool {
    sender_count(txs, tx.sender) >= 3
}

/// Whether the sender appears three or more times in the block.
pub fn is_repeated_sender(tx: &TxView, block_txs: &Vec<TxView>, _tx_index: usize) -> (r: bool)
    ensures
        r == repeated_sender_triggers(tx.deep_view(), block_txs.deep_view()),
{
    let target = to_lower_bytes(tx.sender.as_slice());
    let mut count: usize = 0;
    let mut i: usize = 0;
    while i < block_txs.len()
        invariant
            i <= block_txs@.len(),
            count <= i,
            target@ == lower_bytes(tx.sender@),
            count == sender_count(block_txs.deep_view().take(i as int), tx.sender@),
        decreases block_txs@.len() - i,
    {
        let low = to_lower_bytes(block_txs[i].sender.as_slice());
        if bytes_eq(low.as_slice(), target.as_slice()) {
            count = count + 1;
        }
        i = i + 1;
        proof {
            let dv = block_txs.deep_view();
            assert(dv.take(i as int).drop_last() =~= dv.take(i - 1));
            assert(dv.take(i as int).last() == dv[i - 1]);
            assert(dv[i - 1] == block_txs@[i - 1].deep_view());
        }
    }
    proof {
        assert(block_txs.deep_view().take(block_txs@.len() as int) =~= block_txs.deep_view());
    }
    count >= 3
}

// ---------------------------------------------------------------------------
// Atomic multiswap
// ---------------------------------------------------------------------------

/// Whether `needle` stands in `hay` starting at position `i`.
pub open spec fn is_match_at(hay: Seq<u8>, needle: Seq<u8>, i: int) -> bool {
    0 <= i && i + needle.len() <= hay.len() && hay.subrange(i, i + needle.len() as int)
        == needle
}

/// Whether `needle` stands anywhere in `hay`.
pub open spec fn contains_bytes(hay: Seq<u8>, needle: Seq<u8>) -> bool {
    exists|i: int| is_match_at(hay, needle, i)
}

/// Whether `needle` stands anywhere in `hay`: substring containment over
/// the bytes as given, not structural decoding.
pub fn contains_subslice(hay: &[u8], needle: &[u8]) -> (r: bool)
    ensures
        r == contains_bytes(hay@, needle@),
{
    let n = needle.len();
    let h = hay.len();
    if n > h {
        proof {
            assert forall|i: int| !is_match_at(hay@, needle@, i) by {}
        }
        return false;
    }
    if n == 0 {
        proof {
            assert(is_match_at(hay@, needle@, 0)) by {
                assert(hay@.subrange(0, 0) =~= needle@);
            }
        }
        return true;
    }
    let mut i: usize = 0;
    while i <= h - n
        invariant
            1 <= n <= h,
            n == needle@.len(),
            h == hay@.len(),
            i <= h - n + 1,
            forall|j: int| 0 <= j < i ==> !is_match_at(hay@, needle@, j),
        decreases h - n - i + 1,
    {
        let mut k: usize = 0;
        let mut ok = true;
        while k < n && ok
            invariant
                1 <= n <= h,
                n == needle@.len(),
                h == hay@.len(),
                i + n <= h,
                k <= n,
                ok ==> hay@.subrange(i as int, i + k) == needle@.take(k as int),
                !ok ==> !is_match_at(hay@, needle@, i as int),
            decreases n - k, (if ok { 1int } else { 0int }),
        {
            if hay[i + k] != needle[k] {
                proof {
                    if is_match_at(hay@, needle@, i as int) {
                        assert(hay@.subrange(i as int, i + n)[k as int] == needle@[k as int]);
                    }
                }
                ok = false;
            } else {
                proof {
                    assert(hay@.subrange(i as int, i + k + 1) =~= hay@.subrange(
                        i as int,
                        i + k,
                    ).push(hay@[i + k]));
                    assert(needle@.take(k + 1) =~= needle@.take(k as int).push(
                        needle@[k as int],
                    ));
                }
                k = k + 1;
            }
        }
        if ok {
            proof {
                assert(needle@.take(n as int) =~= needle@);
                assert(is_match_at(hay@, needle@, i as int));
            }
            return true;
        }
        i = i + 1;
    }
    proof {
        assert forall|j: int| !is_match_at(hay@, needle@, j) by {
            if 0 <= j && j + n <= h {
                assert(j < i);
            }
        }
    }
    false
}

/// How many of the configured selectors stand in the calldata.
pub open spec fn selector_match_count(data: Seq<u8>, sels: Seq<Seq<u8>>) -> int
    decreases sels.len(),
{
    if sels.len() == 0 {
        0
    } else {
        selector_match_count(data, sels.drop_last()) + (if contains_bytes(data, sels.last()) {
            1int
        } else {
            0int
        })
    }
}

/// The multiswap trigger: the calldata is non-empty and at least two of the
/// configured selector substrings stand anywhere in it.
pub open spec fn multiswap_triggers(tx: TxData, sels: Seq<Seq<u8>>) -> bool {
    tx.calldata_hex.len() > 0 && selector_match_count(tx.calldata_hex, sels) >= 2
}

/// Whether the calldata holds at least two of the configured selector
/// substrings.
pub fn is_atomic_multiswap(tx: &TxView, config: &DetectorConfig) -> (r: bool)
    ensures
        r == multiswap_triggers(tx.deep_view(), selectors_view(*config)),
{
    if tx.calldata_hex.len() == 0 {
        return false;
    }
    let mut count: usize = 0;
    let mut i: usize = 0;
    while i < config.selectors.len()
        invariant
            i <= config.selectors@.len(),
            count <= i,
            count == selector_match_count(tx.calldata_hex@, selectors_view(*config).take(
                i as int,
            )),
        decreases config.selectors@.len() - i,
    {
        if contains_subslice(tx.calldata_hex.as_slice(), config.selectors[i].as_slice()) {
            count = count + 1;
        }
        i = i + 1;
        proof {
            let sv = selectors_view(*config);
            assert(sv.take(i as int).drop_last() =~= sv.take(i - 1));
            assert(sv.take(i as int).last() == sv[i - 1]);
            assert(sv[i - 1] =~= config.selectors@[i - 1]@);
        }
    }
    proof {
        assert(selectors_view(*config).take(config.selectors@.len() as int) =~= selectors_view(
            *config,
        ));
    }
    count >= 2
}

// ---------------------------------------------------------------------------
// Sandwich pattern
// ---------------------------------------------------------------------------

/// The sandwich trigger: the same sender, compared case-normalized, signed a
/// transaction strictly before and one strictly after this index.
pub open spec fn sandwich_triggers(tx: TxData, txs: Seq<TxData>, idx: int) -> bool {
    (exists|j: int| 0 <= j < txs.len() && j < idx && same_sender(txs[j], tx)) && (exists|k: int|
        idx < k < txs.len() && same_sender(txs[k], tx))
}

/// Whether the sender has transactions both strictly before and strictly
/// after this one in the block.
pub fn is_sandwich_pattern(tx: &TxView, block_txs: &Vec<TxView>, tx_index: usize) -> (r: bool)
    ensures
        r == sandwich_triggers(tx.deep_view(), block_txs.deep_view(), tx_index as int),
{
    let target = to_lower_bytes(tx.sender.as_slice());
    let mut has_before = false;
    let mut has_after = false;
    let mut i: usize = 0;
    while i < block_txs.len()
        invariant
            i <= block_txs@.len(),
            target@ == lower_bytes(tx.sender@),
            has_before == (exists|j: int|
                0 <= j < i && j < tx_index && same_sender(block_txs.deep_view()[j],
                tx.deep_view())),
            has_after == (exists|k: int|
                tx_index < k < i && same_sender(block_txs.deep_view()[k], tx.deep_view())),
        decreases block_txs@.len() - i,
    {
        let low = to_lower_bytes(block_txs[i].sender.as_slice());
        if bytes_eq(low.as_slice(), target.as_slice()) {
            if i < tx_index {
                has_before = true;
            } else if i > tx_index {
                has_after = true;
            }
        }
        i = i + 1;
        proof {
            assert(block_txs.deep_view()[i - 1] == block_txs@[i - 1].deep_view());
        }
    }
    has_before && has_after
}

// ---------------------------------------------------------------------------
// Combined detection
// ---------------------------------------------------------------------------

/// The ordered, deduplicated reason codes of a transaction: each heuristic
/// contributes its code when it triggers, in the fixed evaluation order.
pub open spec fn detected_reasons(
    tx: TxData,
    txs: Seq<TxData>,
    idx: int,
    sels: Seq<Seq<u8>>,
) -> Seq<MevReasonCode> {
    (if high_priority_fee_triggers(tx.priority_fee, txs) {
        seq![MevReasonCode::HighPriorityFee]
    } else {
        Seq::empty()
    }) + (if repeated_sender_triggers(tx, txs) {
        seq![MevReasonCode::RepeatedSender]
    } else {
        Seq::empty()
    }) + (if multiswap_triggers(tx, sels) {
        seq![MevReasonCode::AtomicMultiswap]
    } else {
        Seq::empty()
    }) + (if sandwich_triggers(tx, txs, idx) {
        seq![MevReasonCode::SandwichPattern]
    } else {
        Seq::empty()
    })
}

/// Analyzes a transaction against the four heuristics, given the block's
/// full transaction list and the transaction's index within it. Returns the
/// reason codes of the heuristics that triggered, in the fixed evaluation
/// order, each at most once.
pub fn detect_mev_patterns(
    tx: &TxView,
    block_txs: &Vec<TxView>,
    tx_index: usize,
    config: &DetectorConfig,
) -> (r: Vec<MevReasonCode>)
    ensures
        r@ == detected_reasons(
            tx.deep_view(),
            block_txs.deep_view(),
            tx_index as int,
            selectors_view(*config),
        ),
{
    let mut reasons: Vec<MevReasonCode> = Vec::new();
    if is_high_priority_fee_outlier(tx, block_txs) {
        reasons.push(MevReasonCode::HighPriorityFee);
    }
    if is_repeated_sender(tx, block_txs, tx_index) {
        reasons.push(MevReasonCode::RepeatedSender);
    }
    if is_atomic_multiswap(tx, config) {
        reasons.push(MevReasonCode::AtomicMultiswap);
    }
    if is_sandwich_pattern(tx, block_txs, tx_index) {
        reasons.push(MevReasonCode::SandwichPattern);
    }
    proof {
        assert(reasons@ =~= detected_reasons(
            tx.deep_view(),
            block_txs.deep_view(),
            tx_index as int,
            selectors_view(*config),
        ));
    }
    reasons
}

// ---------------------------------------------------------------------------
// Laws of the heuristics
// ---------------------------------------------------------------------------

/// The median, stated over the ascending fee list: for an even count the
/// doubled median is the sum of the two central values, twice their
/// arithmetic mean; for an odd count it is twice the exact central value.
pub proof fn lemma_median_of_sorted(fees: Seq<u64>)
    requires
        fees.len() > 0,
    ensures
        fees.len() % 2 == 0 ==> median_doubled(fees) == sorted_fees(fees)[fees.len() as int / 2
            - 1] + sorted_fees(fees)[fees.len() as int / 2],
        fees.len() % 2 == 1 ==> median_doubled(fees) == 2 * sorted_fees(fees)[fees.len() as int
            / 2],
{
}

/// On a block whose transactions carry no parsed priority fee at all, the
/// high-priority-fee heuristic never triggers.
pub proof fn lemma_empty_fee_list_never_triggers(fee: Option<u64>, txs: Seq<TxData>)
    requires
        fees_of(txs).len() == 0,
    ensures
        !high_priority_fee_triggers(fee, txs),
{
}

/// A fee exactly at three times the block median does not trigger the
/// high-priority-fee heuristic: the threshold is strict.
pub proof fn lemma_boundary_fee_does_not_trigger(f: u64, txs: Seq<TxData>)
    requires
        2 * (f as int) == 3 * median_doubled(fees_of(txs)),
    ensures
        !high_priority_fee_triggers(Some(f), txs),
{
}

/// A sender with exactly two transactions in the block does not trigger the
/// repeated-sender heuristic.
pub proof fn lemma_sender_pair_does_not_trigger(tx: TxData, txs: Seq<TxData>)
    requires
        sender_count(txs, tx.sender) == 2,
    ensures
        !repeated_sender_triggers(tx, txs),
{
}

/// A transaction whose sender signed no other transaction of the block is
/// never sandwiched.
pub proof fn lemma_unique_sender_never_sandwiched(tx: TxData, txs: Seq<TxData>, idx: int)
    requires
        forall|j: int| 0 <= j < txs.len() && j != idx ==> !same_sender(#[trigger] txs[j], tx),
    ensures
        !sandwich_triggers(tx, txs, idx),
{
    if sandwich_triggers(tx, txs, idx) {
        let j = choose|j: int| 0 <= j < txs.len() && j < idx && same_sender(txs[j], tx);
        assert(!same_sender(txs[j], tx));
    }
}

/// The first and the last transaction of a block are never sandwiched,
/// whoever sent them.
pub proof fn lemma_edge_position_never_sandwiched(tx: TxData, txs: Seq<TxData>, idx: int)
    requires
        idx <= 0 || idx >= txs.len() - 1,
    ensures
        !sandwich_triggers(tx, txs, idx),
{
    if sandwich_triggers(tx, txs, idx) {
        let j = choose|j: int| 0 <= j < txs.len() && j < idx && same_sender(txs[j], tx);
        let k = choose|k: int| idx < k < txs.len() && same_sender(txs[k], tx);
        assert(j >= 0 && k <= txs.len() - 1);
    }
}

/// Calldata in which at most one configured selector stands does not
/// trigger the multiswap heuristic.
pub proof fn lemma_single_selector_match_does_not_trigger(tx: TxData, sels: Seq<Seq<u8>>)
    requires
        selector_match_count(tx.calldata_hex, sels) <= 1,
    ensures
        !multiswap_triggers(tx, sels),
{
}

/// A value standing at two distinct positions of a sequence is held at
/// least twice by its multiset.
proof fn lemma_duplicate_positions_count(s: Seq<u64>, a: int, b: int)
    requires
        0 <= a < b < s.len(),
        s[a] == s[b],
    ensures
        s.to_multiset().count(s[a]) >= 2,
{
    broadcast use vstd::seq_lib::group_to_multiset_ensures;
    broadcast use vstd::multiset::group_multiset_axioms;

    let s1 = s.remove(a);
    assert(s1.to_multiset() == s.to_multiset().remove(s[a]));
    assert(s1[b - 1] == s[b]);
    assert(s1.contains(s[a]));
    assert(s1.to_multiset().count(s[a]) > 0);
}

/// A value a sequence's multiset holds at least twice stands at two
/// distinct positions.
proof fn lemma_count_two_gives_two_positions(s: Seq<u64>, v: u64)
    requires
        s.to_multiset().count(v) >= 2,
    ensures
        exists|a: int, b: int|
            #![trigger s[a], s[b]]
            0 <= a < b < s.len() && s[a] == v && s[b] == v,
{
    broadcast use vstd::seq_lib::group_to_multiset_ensures;
    broadcast use vstd::multiset::group_multiset_axioms;

    assert(s.contains(v));
    let a = choose|a: int| 0 <= a < s.len() && s[a] == v;
    let s1 = s.remove(a);
    assert(s1.to_multiset() == s.to_multiset().remove(v));
    assert(s1.to_multiset().count(v) >= 1);
    assert(s1.contains(v));
    let c = choose|c: int| 0 <= c < s1.len() && s1[c] == v;
    if c < a {
        assert(s[c] == v);
        assert(s[c] == v && s[a] == v);
    } else {
        assert(s[c + 1] == v);
        assert(s[a] == v && s[c + 1] == v);
    }
}

/// With every fee at least `lo` and at most one fee over `hi`, the median
/// of a list of three or more fees stays between `lo` and `hi`.
pub proof fn lemma_median_in_band(fees: Seq<u64>, lo: u64, hi: u64)
    requires
        fees.len() >= 3,
        forall|j: int| 0 <= j < fees.len() ==> #[trigger] fees[j] >= lo,
        forall|j: int, k: int|
            0 <= j < fees.len() && 0 <= k < fees.len() && #[trigger] fees[j] > hi
                && #[trigger] fees[k] > hi ==> j == k,
    ensures
        2 * lo <= median_doubled(fees) <= 2 * hi,
{
    broadcast use vstd::seq_lib::group_to_multiset_ensures;
    broadcast use vstd::multiset::group_multiset_axioms;

    let s = sorted_fees(fees);
    fees.lemma_sort_by_ensures(fee_leq());
    lemma_fee_leq_total();
    assert(s.len() == fees.len()) by {
        assert(s.to_multiset().len() == fees.to_multiset().len());
    }
    let n = s.len() as int;
    assert forall|j: int| 0 <= j < n implies #[trigger] s[j] >= lo by {
        assert(s.contains(s[j]));
        assert(s.to_multiset().count(s[j]) > 0);
        assert(fees.to_multiset().count(s[j]) > 0);
        assert(fees.contains(s[j]));
        let w = choose|w: int| 0 <= w < fees.len() && fees[w] == s[j];
        assert(fees[w] >= lo);
    }
    let mid = n / 2;
    assert(0 <= mid < n - 1);
    assert(s[mid] <= hi) by {
        if s[mid] > hi {
            assert(fee_leq()(s[mid], s[n - 1]));
            assert(s[n - 1] > hi);
            let v1 = s[mid];
            let v2 = s[n - 1];
            if v1 == v2 {
                lemma_duplicate_positions_count(s, mid, n - 1);
                assert(fees.to_multiset().count(v1) >= 2);
                lemma_count_two_gives_two_positions(fees, v1);
                let (a, b) = choose|a: int, b: int|
                    #![trigger fees[a], fees[b]]
                    0 <= a < b < fees.len() && fees[a] == v1 && fees[b] == v1;
                assert(fees[a] > hi && fees[b] > hi && a != b);
            } else {
                assert(s.contains(v1) && s.contains(v2));
                assert(fees.to_multiset().count(v1) > 0 && fees.to_multiset().count(v2) > 0);
                assert(fees.contains(v1) && fees.contains(v2));
                let a = choose|a: int| 0 <= a < fees.len() && fees[a] == v1;
                let b = choose|b: int| 0 <= b < fees.len() && fees[b] == v2;
                assert(fees[a] > hi && fees[b] > hi && a != b);
            }
        }
    }
    if n % 2 == 0 {
        assert(fee_leq()(s[mid - 1], s[mid]));
        assert(lo <= s[mid - 1] && s[mid - 1] <= hi);
    }
}

/// The outlier scenario: a block whose fee list holds three or more fees,
/// every fee at least `lo` with `lo` positive, and at most one fee over
/// `hi`. A transaction whose fee is over three times `hi` is flagged by the
/// high-priority-fee heuristic, and one whose fee is at most three times
/// `lo` is not: the one outlier is flagged, the ordinary transactions are
/// not.
pub proof fn lemma_outlier_flags_only_the_outlier(
    txs: Seq<TxData>,
    lo: u64,
    hi: u64,
    f_out: u64,
    f_ord: u64,
)
    requires
        fees_of(txs).len() >= 3,
        lo > 0,
        forall|j: int| 0 <= j < fees_of(txs).len() ==> #[trigger] fees_of(txs)[j] >= lo,
        forall|j: int, k: int|
            0 <= j < fees_of(txs).len() && 0 <= k < fees_of(txs).len()
                && #[trigger] fees_of(txs)[j] > hi && #[trigger] fees_of(txs)[k] > hi ==> j
                == k,
        f_out as int > 3 * (hi as int),
        f_ord as int <= 3 * (lo as int),
    ensures
        high_priority_fee_triggers(Some(f_out), txs),
        !high_priority_fee_triggers(Some(f_ord), txs),
{
    lemma_median_in_band(fees_of(txs), lo, hi);
}

} // verus!
