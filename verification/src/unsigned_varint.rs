use vstd::prelude::*;
use crate::error::CodecError;
use crate::format::{settled, Parsed, WireFormat};

verus! {

/// An unsigned 32-bit integer whose wire form is one to five bytes: seven
/// payload bits per byte, low-order group first, the high bit set on every
/// byte but the last.
#[derive(Debug, Clone, Copy, PartialEq, Eq, Structural)]
pub struct UnsignedVarInt(pub u32);

/// 128 to the power `k`, for the positions that a group can take.
pub open spec fn group_weight(k: nat) -> nat {
    if k == 0 {
        1
    } else if k == 1 {
        128
    } else if k == 2 {
        16384
    } else if k == 3 {
        2097152
    } else if k == 4 {
        268435456
    } else {
        34359738368
    }
}

/// The groups of `v`, low-order first, each but the last with its high bit set.
pub open spec fn varint_wire(v: nat) -> Seq<u8>
    decreases v,
{
    if v < 128 {
        seq![v as u8]
    } else {
        seq![(v % 128 + 128) as u8] + varint_wire(v / 128)
    }
}

/// The value of the groups of `s` from position `k` on, each weighted by its
/// position, and the index behind the last of them. There is no sixth group:
/// a fifth byte with its high bit set is a format error.
pub open spec fn varint_groups(s: Seq<u8>, k: nat) -> Parsed<nat>
    decreases 5 - k,
{
    if k >= 5 {
        Err(CodecError::FormatError)
    } else if s.len() <= k {
        Err(CodecError::IncompleteFrame)
    } else if s[k as int] < 128 {
        Ok((s[k as int] as nat * group_weight(k), k + 1))
    } else {
        match varint_groups(s, k + 1) {
            Ok((v, n)) => Ok(((s[k as int] - 128) as nat * group_weight(k) + v, n)),
            Err(e) => Err(e),
        }
    }
}

/// What the first bytes of `s` decode to. Bits of a fifth group that lie
/// beyond the 32nd are dropped.
pub open spec fn varint_parse(s: Seq<u8>) -> Parsed<u32> {
    match varint_groups(s, 0) {
        Ok((v, n)) => Ok(((v % 4294967296) as u32, n)),
        Err(e) => Err(e),
    }
}

/// `p` with `acc` added to its value.
pub open spec fn with_lower_groups(p: Parsed<nat>, acc: nat) -> Parsed<nat> {
    match p {
        Ok((v, n)) => Ok((acc + v, n)),
        Err(e) => Err(e),
    }
}

/// A wire form has one to five bytes when the value is below 128^5.
pub proof fn lemma_varint_wire_len(v: nat)
    ensures
        1 <= varint_wire(v).len(),
        v < 128 ==> varint_wire(v).len() == 1,
        v <= u32::MAX ==> varint_wire(v).len() <= 5,
    decreases v,
{
    if v >= 128 {
        lemma_varint_wire_len(v / 128);
        if v <= u32::MAX {
            let a = v / 128;
            lemma_varint_wire_len(a / 128);
            if a >= 128 {
                let b = a / 128;
                lemma_varint_wire_len(b / 128);
                if b >= 128 {
                    let c = b / 128;
                    lemma_varint_wire_len(c / 128);
                    assert(c / 128 < 128);
                }
            }
        }
    }
}

/// Groups are found where a wire form lies: if `s` holds the wire form of `v`
/// from position `k` on, the groups from `k` are worth `v` times the weight
/// of `k`.
pub proof fn lemma_groups_of_wire(s: Seq<u8>, k: nat, v: nat)
    requires
        k < 5,
        v < group_weight((5 - k) as nat),
        k + varint_wire(v).len() <= s.len(),
        s.subrange(k as int, (k + varint_wire(v).len()) as int) == varint_wire(v),
    ensures
        varint_groups(s, k) == Ok::<(nat, nat), CodecError>(
            (v * group_weight(k), k + varint_wire(v).len()),
        ),
    decreases v,
{
    let w = varint_wire(v);
    assert(s[k as int] == s.subrange(k as int, (k + w.len()) as int)[0]);
    if v < 128 {
        assert(w[0] == v as u8);
    } else {
        let tail = varint_wire(v / 128);
        assert(w[0] == (v % 128 + 128) as u8);
        assert(w.len() == 1 + tail.len());
        assert(s.subrange(k as int + 1, (k + 1 + tail.len()) as int) =~= tail) by {
            assert forall|i: int| 0 <= i < tail.len() implies s[k + 1 + i] == tail[i] by {
                assert(s[k + 1 + i] == s.subrange(k as int, (k + w.len()) as int)[i + 1]);
                assert(w[i + 1] == tail[i]);
            }
        }
        lemma_groups_of_wire(s, k + 1, v / 128);
        let g0 = group_weight(k);
        let g1 = group_weight(k + 1);
        let q = v / 128;
        let r = v % 128;
        assert(r * g0 + q * g1 == v * g0) by (nonlinear_arith)
            requires
                g1 == 128 * g0,
                v == q * 128 + r,
        ;
    }
}

/// The groups that are found end inside the input, behind where they began.
pub proof fn lemma_groups_bound(s: Seq<u8>, k: nat)
    ensures
        varint_groups(s, k) is Ok ==> k < varint_groups(s, k).unwrap().1 <= s.len()
            && varint_groups(s, k).unwrap().1 <= 5,
    decreases 5 - k,
{
    if k < 5 && s.len() > k && s[k as int] >= 128 {
        lemma_groups_bound(s, k + 1);
    }
}

/// Groups that were found, or refused, stay so when more bytes arrive.
pub proof fn lemma_groups_extend(s: Seq<u8>, more: Seq<u8>, k: nat)
    requires
        settled(varint_groups(s, k)),
    ensures
        varint_groups(s + more, k) == varint_groups(s, k),
    decreases 5 - k,
{
    if k < 5 && s.len() > k {
        assert((s + more)[k as int] == s[k as int]);
        if s[k as int] >= 128 {
            lemma_groups_extend(s, more, k + 1);
        }
    }
}

impl UnsignedVarInt {
    pub fn new(value: u32) -> (r: Self)
        ensures
            r.0 == value,
    {
        UnsignedVarInt(value)
    }

    /// The value.
    pub fn get(&self) -> (r: u32)
        ensures
            r == self.0,
    {
        self.0
    }

    /// The varint of a length, where the length fits 32 bits.
    pub fn try_from_usize(value: usize) -> (r: Option<Self>)
        ensures
            value <= u32::MAX ==> r == Some(UnsignedVarInt(value as u32)),
            value > u32::MAX ==> r is None,
    {
        if value <= 0xFFFF_FFFF {
            Some(UnsignedVarInt(value as u32))
        } else {
            None
        }
    }
}

impl From<u32> for UnsignedVarInt {
    fn from(value: u32) -> (r: Self) {
        UnsignedVarInt(value)
    }
}

impl vstd::std_specs::convert::FromSpecImpl<u32> for UnsignedVarInt {
    open spec fn obeys_from_spec() -> bool {
        true
    }

    open spec fn from_spec(value: u32) -> Self {
        UnsignedVarInt(value)
    }
}

impl WireFormat for UnsignedVarInt {
    type Model = u32;

    open spec fn model(&self) -> u32 {
        self.0
    }

    open spec fn encodable(m: u32) -> bool {
        true
    }

    open spec fn wire(m: u32) -> Seq<u8> {
        varint_wire(m as nat)
    }

    open spec fn parse(s: Seq<u8>) -> Parsed<u32> {
        varint_parse(s)
    }

    proof fn lemma_round_trip(m: u32, rest: Seq<u8>) {
        let w = varint_wire(m as nat);
        assert((w + rest).subrange(0, w.len() as int) =~= w);
        lemma_groups_of_wire(w + rest, 0, m as nat);
    }

    proof fn lemma_parse_bound(s: Seq<u8>) {
        lemma_groups_bound(s, 0);
    }

    proof fn lemma_parse_extend(s: Seq<u8>, more: Seq<u8>) {
        lemma_groups_extend(s, more, 0);
    }

    fn encode(&self, out: &mut Vec<u8>) -> (r: Result<(), CodecError>) {
        let ghost before = out@;
        let mut value: u32 = self.0;
        while value >= 128
            invariant
                before + varint_wire(self.0 as nat) == out@ + varint_wire(value as nat),
            decreases value,
        {
            let ghost prev = out@;
            let byte: u8 = (value % 128 + 128) as u8;
            out.push(byte);
            assert(prev + varint_wire(value as nat) =~= prev.push(byte) + varint_wire(
                (value / 128) as nat,
            ));
            value = value / 128;
        }
        let ghost prev = out@;
        out.push(value as u8);
        assert(prev + varint_wire(value as nat) =~= prev.push(value as u8));
        Ok(())
    }

    fn decode(input: &[u8]) -> (r: Result<(Self, usize), CodecError>) {
        let mut acc: u64 = 0;
        let mut weight: u64 = 1;
        let mut k: usize = 0;
        while k < 5
            invariant
                k <= 5,
                weight == group_weight(k as nat),
                acc <= k * 34359738368,
                varint_groups(input@, 0) == with_lower_groups(
                    varint_groups(input@, k as nat),
                    acc as nat,
                ),
            decreases 5 - k,
        {
            if k >= input.len() {
                return Err(CodecError::IncompleteFrame);
            }
            let byte: u8 = input[k];
            assert(byte as u64 * weight <= 255 * 268435456) by (nonlinear_arith)
                requires
                    byte <= 255,
                    weight <= 268435456,
            ;
            if byte < 128 {
                let total: u64 = acc + byte as u64 * weight;
                return Ok((UnsignedVarInt((total % 4294967296) as u32), k + 1));
            }
            assert((byte - 128) as u64 * weight <= 127 * 268435456) by (nonlinear_arith)
                requires
                    128 <= byte <= 255,
                    weight <= 268435456,
            ;
            acc = acc + (byte - 128) as u64 * weight;
            weight = weight * 128;
            k += 1;
        }
        Err(CodecError::FormatError)
    }
}

} // verus!
