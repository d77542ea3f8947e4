//! Byte-string helpers for the ASCII hex values the chain hands back:
//! case normalization, hex parsing, and hex encoding of raw calldata.

use vstd::prelude::*;

verus! {

/// Lower-cased form of one ASCII byte: letters `A`..`Z` move to `a`..`z`,
/// every other byte is unchanged.
pub open spec fn lower_byte(b: u8) -> u8 {
    if ('A' as u8) <= b && b <= ('Z' as u8) {
        (b + 32) as u8
    } else {
        b
    }
}

/// Lower-cased form of a byte string, byte for byte.
pub open spec fn lower_bytes(s: Seq<u8>) -> Seq<u8> {
    s.map_values(|b: u8| lower_byte(b))
}

/// Case-normalized copy of an ASCII byte string.
pub fn to_lower_bytes(s: &[u8]) -> (r: Vec<u8>)
    ensures
        r@ == lower_bytes(s@),
{
    let mut out: Vec<u8> = Vec::new();
    let mut i: usize = 0;
    while i < s.len()
        invariant
            i <= s@.len(),
            out@ == lower_bytes(s@.take(i as int)),
        decreases s@.len() - i,
    {
        let b = s[i];
        if ('A' as u8) <= b && b <= ('Z' as u8) {
            out.push(b + 32);
        } else {
            out.push(b);
        }
        i = i + 1;
        assert(lower_bytes(s@.take(i as int)) =~= lower_bytes(s@.take(i - 1)).push(
            lower_byte(s@[i - 1]),
        ));
    }
    assert(s@.take(s@.len() as int) =~= s@);
    out
}

/// The deep view of a byte vector is its view.
pub broadcast proof fn lemma_bytes_deep_view(v: Vec<u8>)
    ensures
        #[trigger] v.deep_view() == v@,
{
    assert(v.deep_view() =~= v@);
}

/// Lower-casing a byte string twice is the same as lower-casing it once.
pub proof fn lemma_lower_idempotent(s: Seq<u8>)
    ensures
        lower_bytes(lower_bytes(s)) == lower_bytes(s),
{
    assert(lower_bytes(lower_bytes(s)) =~= lower_bytes(s)) by {
        assert(forall|i: int|
            0 <= i < s.len() ==> lower_byte(#[trigger] lower_bytes(s)[i]) == lower_bytes(s)[i]);
    }
}

/// The canonical form of a hex calldata string: lower-cased, with the `0x`
/// prefix removed.
pub fn normalize_hex(s: &[u8]) -> (r: Vec<u8>)
    ensures
        r@ == strip_0x(lower_bytes(s@)),
{
    let low = to_lower_bytes(s);
    if low.len() >= 2 && low[0] == ('0' as u8) && low[1] == ('x' as u8) {
        let stripped = vstd::slice::slice_subrange(low.as_slice(), 2, low.len());
        vstd::slice::slice_to_vec(stripped)
    } else {
        low
    }
}

/// Whether a byte is an ASCII hex digit.
pub open spec fn is_hex_digit(b: u8) -> bool {
    (('0' as u8) <= b && b <= ('9' as u8)) || (('a' as u8) <= b && b <= ('f' as u8)) || (('A' as u8) <= b && b <= ('F' as u8))
}

/// Numeric value of an ASCII hex digit.
pub open spec fn hex_digit_value(b: u8) -> int {
    if ('0' as u8) <= b && b <= ('9' as u8) {
        b - ('0' as u8)
    } else if ('a' as u8) <= b && b <= ('f' as u8) {
        b - ('a' as u8) + 10
    } else {
        b - ('A' as u8) + 10
    }
}

/// Whether every byte of `s` is an ASCII hex digit.
pub open spec fn all_hex_digits(s: Seq<u8>) -> bool {
    forall|i: int| 0 <= i < s.len() ==> is_hex_digit(#[trigger] s[i])
}

/// Unsigned value of a big-endian ASCII hex string.
pub open spec fn hex_value(s: Seq<u8>) -> int
    decreases s.len(),
{
    if s.len() == 0 {
        0
    } else {
        hex_value(s.drop_last()) * 16 + hex_digit_value(s.last())
    }
}

/// The byte string without a leading `0x`, if one is there.
pub open spec fn strip_0x(s: Seq<u8>) -> Seq<u8> {
    if s.len() >= 2 && s[0] == ('0' as u8) && s[1] == ('x' as u8) {
        s.skip(2)
    } else {
        s
    }
}

/// Whether a byte string is a well-formed `0x`-prefixed or bare hex
/// numeral whose value fits in a `u64`.
pub open spec fn is_hex_u64(s: Seq<u8>) -> bool {
    let digits = strip_0x(s);
    digits.len() > 0 && all_hex_digits(digits) && hex_value(digits) <= u64::MAX
}

/// Parses a big-endian hex numeral, with or without a `0x` prefix, as the
/// chain encodes every integer field. Returns `None` exactly on an empty
/// digit string, a non-hex byte, or a value over `u64::MAX`.
pub fn parse_hex_u64(s: &[u8]) -> (r: Option<u64>)
    ensures
        r is Some <==> is_hex_u64(s@),
        r matches Some(v) ==> v == hex_value(strip_0x(s@)),
{
    let digits: &[u8] = if s.len() >= 2 && s[0] == ('0' as u8) && s[1] == ('x' as u8) {
        vstd::slice::slice_subrange(s, 2, s.len())
    } else {
        s
    };
    assert(digits@ == strip_0x(s@));
    if digits.len() == 0 {
        return None;
    }
    let mut acc: u64 = 0;
    let mut i: usize = 0;
    while i < digits.len()
        invariant
            i <= digits@.len(),
            all_hex_digits(digits@.take(i as int)),
            acc == hex_value(digits@.take(i as int)),
            digits@ == strip_0x(s@),
            digits@.len() > 0,
        decreases digits@.len() - i,
    {
        let b = digits[i];
        let d: u64 = if ('0' as u8) <= b && b <= ('9' as u8) {
            (b - ('0' as u8)) as u64
        } else if ('a' as u8) <= b && b <= ('f' as u8) {
            (b - ('a' as u8)) as u64 + 10
        } else if ('A' as u8) <= b && b <= ('F' as u8) {
            (b - ('A' as u8)) as u64 + 10
        } else {
            assert(!is_hex_digit(digits@[i as int]));
            return None;
        };
        assert(d == hex_digit_value(digits@[i as int]));
        if acc > (u64::MAX - d) / 16 {
            proof {
                assert(acc * 16 + d > u64::MAX) by (nonlinear_arith)
                    requires
                        acc > (u64::MAX - d) / 16,
                        d <= 15,
                ;
                if all_hex_digits(digits@) {
                    assert(digits@.take(i + 1).drop_last() =~= digits@.take(i as int));
                    assert(hex_value(digits@.take(i + 1)) > u64::MAX);
                    lemma_hex_prefix_bound(digits@, i + 1);
                    assert(digits@.take(digits@.len() as int) =~= digits@);
                }
            }
            return None;
        }
        acc = acc * 16 + d;
        i = i + 1;
        assert(digits@.take(i as int).drop_last() =~= digits@.take(i - 1));
    }
    assert(digits@.take(digits@.len() as int) =~= digits@);
    Some(acc)
}

/// The value of an all-hex numeral is at least the value of any of its
/// prefixes, and every prefix value is non-negative.
proof fn lemma_hex_prefix_bound(s: Seq<u8>, i: int)
    requires
        0 <= i <= s.len(),
        all_hex_digits(s),
    ensures
        hex_value(s) >= hex_value(s.take(i)),
        hex_value(s.take(i)) >= 0,
    decreases s.len() - i, i,
{
    lemma_hex_value_nonneg(s.take(i));
    if i < s.len() {
        assert(s.take(i + 1).drop_last() =~= s.take(i));
        assert(hex_value(s.take(i + 1)) >= hex_value(s.take(i)));
        lemma_hex_prefix_bound(s, i + 1);
        assert(s.take(s.len() as int) =~= s);
    } else {
        assert(s.take(i) =~= s);
    }
}

/// Hex digit byte of a nibble value, lower-case.
pub open spec fn nibble_hex(n: int) -> u8 {
    if n < 10 {
        (('0' as u8) + n) as u8
    } else {
        (('a' as u8) + (n - 10)) as u8
    }
}

/// Lower-case hex encoding of a byte string: two digits for each byte,
/// high nibble first.
pub open spec fn hex_bytes_of(s: Seq<u8>) -> Seq<u8>
    decreases s.len(),
{
    if s.len() == 0 {
        Seq::empty()
    } else {
        hex_bytes_of(s.drop_last()) + seq![
            nibble_hex(s.last() as int / 16),
            nibble_hex(s.last() as int % 16),
        ]
    }
}

/// Relies on hex::encode: lower-case hex, two digits for each byte, high
/// nibble first.
#[verifier::external_body]
pub(crate) fn hex_encode_bytes(data: &[u8]) -> (r: Vec<u8>)
    ensures
        r@ == hex_bytes_of(data@),
{
    hex::encode(data).into_bytes()
}

/// An all-hex numeral's value is never negative.
proof fn lemma_hex_value_nonneg(s: Seq<u8>)
    requires
        all_hex_digits(s),
    ensures
        hex_value(s) >= 0,
    decreases s.len(),
{
    if s.len() > 0 {
        assert(all_hex_digits(s.drop_last())) by {
            assert(forall|j: int|
                0 <= j < s.drop_last().len() ==> #[trigger] s.drop_last()[j] == s[j]);
        }
        lemma_hex_value_nonneg(s.drop_last());
    }
}

} // verus!
