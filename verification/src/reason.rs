//! The closed set of reason codes a transaction can be classified with,
//! each with its fixed tag, and the serialized form the store keeps.

use vstd::prelude::*;

verus! {

/// Reason codes for transaction classification.
#[derive(Clone, Copy, Debug, PartialEq, Eq, Structural)]
pub enum MevReasonCode {
    HighPriorityFee,
    RepeatedSender,
    AtomicMultiswap,
    SandwichPattern,
}

/// The fixed tag of a reason code, as ASCII bytes.
pub open spec fn tag_bytes_of(code: MevReasonCode) -> Seq<u8> {
    match code {
        MevReasonCode::HighPriorityFee => seq![
            ('h' as u8), ('i' as u8), ('g' as u8), ('h' as u8), ('_' as u8),
            ('p' as u8), ('r' as u8), ('i' as u8), ('o' as u8), ('r' as u8),
            ('i' as u8), ('t' as u8), ('y' as u8), ('_' as u8), ('f' as u8),
            ('e' as u8), ('e' as u8),
        ],
        MevReasonCode::RepeatedSender => seq![
            ('r' as u8), ('e' as u8), ('p' as u8), ('e' as u8), ('a' as u8),
            ('t' as u8), ('e' as u8), ('d' as u8), ('_' as u8), ('s' as u8),
            ('e' as u8), ('n' as u8), ('d' as u8), ('e' as u8), ('r' as u8),
        ],
        MevReasonCode::AtomicMultiswap => seq![
            ('a' as u8), ('t' as u8), ('o' as u8), ('m' as u8), ('i' as u8),
            ('c' as u8), ('_' as u8), ('m' as u8), ('u' as u8), ('l' as u8),
            ('t' as u8), ('i' as u8), ('s' as u8), ('w' as u8), ('a' as u8),
            ('p' as u8),
        ],
        MevReasonCode::SandwichPattern => seq![
            ('s' as u8), ('a' as u8), ('n' as u8), ('d' as u8), ('w' as u8),
            ('i' as u8), ('c' as u8), ('h' as u8), ('_' as u8), ('p' as u8),
            ('a' as u8), ('t' as u8), ('t' as u8), ('e' as u8), ('r' as u8),
            ('n' as u8),
        ],
    }
}

/// The fixed tag of a reason code, as characters.
pub open spec fn tag_chars_of(code: MevReasonCode) -> Seq<char> {
    match code {
        MevReasonCode::HighPriorityFee => "high_priority_fee"@,
        MevReasonCode::RepeatedSender => "repeated_sender"@,
        MevReasonCode::AtomicMultiswap => "atomic_multiswap"@,
        MevReasonCode::SandwichPattern => "sandwich_pattern"@,
    }
}

impl MevReasonCode {
    /// The fixed string tag used for storage and audit serialization.
    pub fn as_str(&self) -> (r: &'static str)
        ensures
            r@ == tag_chars_of(*self),
    {
        match self {
            MevReasonCode::HighPriorityFee => "high_priority_fee",
            MevReasonCode::RepeatedSender => "repeated_sender",
            MevReasonCode::AtomicMultiswap => "atomic_multiswap",
            MevReasonCode::SandwichPattern => "sandwich_pattern",
        }
    }

    /// The fixed string tag as ASCII bytes.
    pub fn tag_bytes(&self) -> (r: Vec<u8>)
        ensures
            r@ == tag_bytes_of(*self),
    {
        match self {
            MevReasonCode::HighPriorityFee => {
                let v: Vec<u8> = vec![
                    ('h' as u8), ('i' as u8), ('g' as u8), ('h' as u8), ('_' as u8),
                    ('p' as u8), ('r' as u8), ('i' as u8), ('o' as u8), ('r' as u8),
                    ('i' as u8), ('t' as u8), ('y' as u8), ('_' as u8), ('f' as u8),
                    ('e' as u8), ('e' as u8),
                ];
                assert(v@ =~= tag_bytes_of(*self));
                v
            },
            MevReasonCode::RepeatedSender => {
                let v: Vec<u8> = vec![
                    ('r' as u8), ('e' as u8), ('p' as u8), ('e' as u8), ('a' as u8),
                    ('t' as u8), ('e' as u8), ('d' as u8), ('_' as u8), ('s' as u8),
                    ('e' as u8), ('n' as u8), ('d' as u8), ('e' as u8), ('r' as u8),
                ];
                assert(v@ =~= tag_bytes_of(*self));
                v
            },
            MevReasonCode::AtomicMultiswap => {
                let v: Vec<u8> = vec![
                    ('a' as u8), ('t' as u8), ('o' as u8), ('m' as u8), ('i' as u8),
                    ('c' as u8), ('_' as u8), ('m' as u8), ('u' as u8), ('l' as u8),
                    ('t' as u8), ('i' as u8), ('s' as u8), ('w' as u8), ('a' as u8),
                    ('p' as u8),
                ];
                assert(v@ =~= tag_bytes_of(*self));
                v
            },
            MevReasonCode::SandwichPattern => {
                let v: Vec<u8> = vec![
                    ('s' as u8), ('a' as u8), ('n' as u8), ('d' as u8), ('w' as u8),
                    ('i' as u8), ('c' as u8), ('h' as u8), ('_' as u8), ('p' as u8),
                    ('a' as u8), ('t' as u8), ('t' as u8), ('e' as u8), ('r' as u8),
                    ('n' as u8),
                ];
                assert(v@ =~= tag_bytes_of(*self));
                v
            },
        }
    }
}

/// A tag wrapped in double quotes, as it stands inside the serialized list.
pub open spec fn quoted_tag(code: MevReasonCode) -> Seq<u8> {
    seq![('"' as u8)] + tag_bytes_of(code) + seq![('"' as u8)]
}

/// The comma-separated quoted tags of a code list, in emission order.
pub open spec fn joined_tags(codes: Seq<MevReasonCode>) -> Seq<u8>
    decreases codes.len(),
{
    if codes.len() == 0 {
        Seq::empty()
    } else if codes.len() == 1 {
        quoted_tag(codes[0])
    } else {
        joined_tags(codes.drop_last()) + seq![(',' as u8)] + quoted_tag(codes.last())
    }
}

/// The serialized form of a code list: a bracketed array of quoted tags,
/// in emission order.
pub open spec fn codes_serialized(codes: Seq<MevReasonCode>) -> Seq<u8> {
    seq![('[' as u8)] + joined_tags(codes) + seq![(']' as u8)]
}

/// Serializes an ordered list of reason codes for storage and audit, as a
/// bracketed array of the fixed quoted tags, in emission order.
pub fn serialize_reason_codes(codes: &Vec<MevReasonCode>) -> (r: Vec<u8>)
    ensures
        r@ == codes_serialized(codes@),
{
    let mut out: Vec<u8> = Vec::new();
    out.push('[' as u8);
    let mut i: usize = 0;
    while i < codes.len()
        invariant
            i <= codes@.len(),
            out@ == seq![('[' as u8)] + joined_tags(codes@.take(i as int)),
        decreases codes@.len() - i,
    {
        if i > 0 {
            out.push(',' as u8);
        }
        out.push('"' as u8);
        let mut tag = codes[i].tag_bytes();
        out.append(&mut tag);
        out.push('"' as u8);
        i = i + 1;
        proof {
            assert(codes@.take(i as int).drop_last() =~= codes@.take(i - 1));
            assert(out@ =~= seq![('[' as u8)] + joined_tags(codes@.take(i as int)));
        }
    }
    out.push(']' as u8);
    proof {
        assert(codes@.take(codes@.len() as int) =~= codes@);
        assert(out@ =~= codes_serialized(codes@));
    }
    out
}

} // verus!
