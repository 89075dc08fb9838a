use vstd::prelude::*;
use binrw::BinRead;
use binrw::BinWrite;
use crate::error::CodecError;
use crate::format::{Parsed, WireFormat};

verus! {

/// The signed 16-bit integer that two big-endian bytes stand for.
pub open spec fn be_i16(s: Seq<u8>) -> i16
    recommends
        s.len() >= 2,
{
    let u = s[0] as int * 256 + s[1] as int;
    if u >= 32768 {
        (u - 65536) as i16
    } else {
        u as i16
    }
}

/// The two big-endian bytes of a signed 16-bit integer.
pub open spec fn i16_wire(v: i16) -> Seq<u8> {
    let u: int = if v < 0 {
        v + 65536
    } else {
        v as int
    };
    seq![(u / 256) as u8, (u % 256) as u8]
}

/// The signed 32-bit integer that four big-endian bytes stand for.
pub open spec fn be_i32(s: Seq<u8>) -> i32
    recommends
        s.len() >= 4,
{
    let u = s[0] as int * 16777216 + s[1] as int * 65536 + s[2] as int * 256 + s[3] as int;
    if u >= 2147483648 {
        (u - 4294967296) as i32
    } else {
        u as i32
    }
}

/// The four big-endian bytes of a signed 32-bit integer.
pub open spec fn i32_wire(v: i32) -> Seq<u8> {
    let u: int = if v < 0 {
        v + 4294967296
    } else {
        v as int
    };
    seq![
        (u / 16777216) as u8,
        ((u / 65536) % 256) as u8,
        ((u / 256) % 256) as u8,
        (u % 256) as u8,
    ]
}

/// Calls binrw's `BinRead::read_be` for `i16` on a cursor over `input`.
/// Claimed: with two bytes or more it gives the big-endian value of the first
/// two; with fewer the read fails.
#[verifier::external_body]
fn read_i16_be(input: &[u8]) -> (r: Option<i16>)
    ensures
        input@.len() >= 2 ==> r == Some(be_i16(input@)),
        input@.len() < 2 ==> r is None,
{
    let mut cursor = std::io::Cursor::new(input);
    i16::read_be(&mut cursor).ok()
}

/// Calls binrw's `BinRead::read_be` for `i32` on a cursor over `input`.
/// Claimed: with four bytes or more it gives the big-endian value of the
/// first four; with fewer the read fails.
#[verifier::external_body]
fn read_i32_be(input: &[u8]) -> (r: Option<i32>)
    ensures
        input@.len() >= 4 ==> r == Some(be_i32(input@)),
        input@.len() < 4 ==> r is None,
{
    let mut cursor = std::io::Cursor::new(input);
    i32::read_be(&mut cursor).ok()
}

/// Calls binrw's `BinWrite::write_be` for `i16` on a cursor over an empty
/// vector. Claimed: the vector then holds the value's two big-endian bytes
/// (a write into memory does not fail).
#[verifier::external_body]
fn write_i16_be(value: i16) -> (r: Vec<u8>)
    ensures
        r@ == i16_wire(value),
{
    let mut cursor = std::io::Cursor::new(Vec::new());
    let _ = value.write_be(&mut cursor);
    cursor.into_inner()
}

/// Calls binrw's `BinWrite::write_be` for `i32` on a cursor over an empty
/// vector. Claimed: the vector then holds the value's four big-endian bytes
/// (a write into memory does not fail).
#[verifier::external_body]
fn write_i32_be(value: i32) -> (r: Vec<u8>)
    ensures
        r@ == i32_wire(value),
{
    let mut cursor = std::io::Cursor::new(Vec::new());
    let _ = value.write_be(&mut cursor);
    cursor.into_inner()
}

/// The bytes of a 16-bit integer stand for that integer.
pub proof fn lemma_i16_round_trip(v: i16, rest: Seq<u8>)
    ensures
        be_i16(i16_wire(v) + rest) == v,
        i16_wire(v).len() == 2,
{
}

/// The bytes of a 32-bit integer stand for that integer.
pub proof fn lemma_i32_round_trip(v: i32, rest: Seq<u8>)
    ensures
        be_i32(i32_wire(v) + rest) == v,
        i32_wire(v).len() == 4,
{
}

impl WireFormat for i16 {
    type Model = i16;

    open spec fn model(&self) -> i16 {
        *self
    }

    open spec fn encodable(m: i16) -> bool {
        true
    }

    open spec fn wire(m: i16) -> Seq<u8> {
        i16_wire(m)
    }

    open spec fn parse(s: Seq<u8>) -> Parsed<i16> {
        if s.len() < 2 {
            Err(CodecError::IncompleteFrame)
        } else {
            Ok((be_i16(s), 2))
        }
    }

    proof fn lemma_round_trip(m: i16, rest: Seq<u8>) {
        lemma_i16_round_trip(m, rest);
    }

    proof fn lemma_parse_bound(s: Seq<u8>) {
    }

    proof fn lemma_parse_extend(s: Seq<u8>, more: Seq<u8>) {
        assert((s + more)[0] == s[0] && (s + more)[1] == s[1]);
    }

    fn encode(&self, out: &mut Vec<u8>) -> (r: Result<(), CodecError>) {
        let mut bytes = write_i16_be(*self);
        out.append(&mut bytes);
        Ok(())
    }

    fn decode(input: &[u8]) -> (r: Result<(i16, usize), CodecError>) {
        match read_i16_be(input) {
            Some(v) => Ok((v, 2)),
            None => Err(CodecError::IncompleteFrame),
        }
    }
}

impl WireFormat for i32 {
    type Model = i32;

    open spec fn model(&self) -> i32 {
        *self
    }

    open spec fn encodable(m: i32) -> bool {
        true
    }

    open spec fn wire(m: i32) -> Seq<u8> {
        i32_wire(m)
    }

    open spec fn parse(s: Seq<u8>) -> Parsed<i32> {
        if s.len() < 4 {
            Err(CodecError::IncompleteFrame)
        } else {
            Ok((be_i32(s), 4))
        }
    }

    proof fn lemma_round_trip(m: i32, rest: Seq<u8>) {
        lemma_i32_round_trip(m, rest);
    }

    proof fn lemma_parse_bound(s: Seq<u8>) {
    }

    proof fn lemma_parse_extend(s: Seq<u8>, more: Seq<u8>) {
        assert((s + more)[0] == s[0] && (s + more)[1] == s[1]);
        assert((s + more)[2] == s[2] && (s + more)[3] == s[3]);
    }

    fn encode(&self, out: &mut Vec<u8>) -> (r: Result<(), CodecError>) {
        let mut bytes = write_i32_be(*self);
        out.append(&mut bytes);
        Ok(())
    }

    fn decode(input: &[u8]) -> (r: Result<(i32, usize), CodecError>) {
        match read_i32_be(input) {
            Some(v) => Ok((v, 4)),
            None => Err(CodecError::IncompleteFrame),
        }
    }
}

} // verus!
