use vstd::prelude::*;
use crate::error::CodecError;
use crate::fixed::{be_i32, i32_wire, lemma_i32_round_trip};
use crate::format::{Encode, WireFormat};
use crate::pos_marker::PosMarker;

verus! {

/// A response: a header and a body. Its frame is the size of the two, as a
/// signed 32-bit integer, and then the two.
#[derive(Debug, Clone, PartialEq, Eq)]
pub struct KafkaGenericResponse<H, B> {
    pub header: H,
    pub body: B,
}

/// Whether header and body can be encoded and their size fits the size field.
pub open spec fn frame_encodable<H: Encode, B: Encode>(header: H::Model, body: B::Model) -> bool {
    H::encodable(header) && B::encodable(body) && H::wire(header).len() + B::wire(body).len()
        <= i32::MAX
}

/// The frame of a response: the exact byte length of header and body, then
/// the header, then the body.
pub open spec fn response_frame<H: Encode, B: Encode>(header: H::Model, body: B::Model) -> Seq<u8> {
    i32_wire((H::wire(header).len() + B::wire(body).len()) as i32) + H::wire(header) + B::wire(
        body,
    )
}

/// Frame integrity: the size field of a response's frame holds the exact
/// byte length of header and body, which is all that follows it.
pub proof fn lemma_frame_size<H: Encode, B: Encode>(header: H::Model, body: B::Model)
    requires
        frame_encodable::<H, B>(header, body),
    ensures
        be_i32(response_frame::<H, B>(header, body)) == H::wire(header).len() + B::wire(
            body,
        ).len(),
        response_frame::<H, B>(header, body).len() == 4 + be_i32(
            response_frame::<H, B>(header, body),
        ),
        response_frame::<H, B>(header, body).skip(4) == H::wire(header) + B::wire(body),
{
    let size = (H::wire(header).len() + B::wire(body).len()) as i32;
    let payload = H::wire(header) + B::wire(body);
    assert(response_frame::<H, B>(header, body) =~= i32_wire(size) + payload);
    lemma_i32_round_trip(size, payload);
    assert((i32_wire(size) + payload).skip(4) =~= payload);
}

impl<H, B> KafkaGenericResponse<H, B> {
    pub fn new(header: H, body: B) -> (r: Self)
        ensures
            r.header == header,
            r.body == body,
    {
        KafkaGenericResponse { header, body }
    }
}

impl<H: Encode, B: Encode> KafkaGenericResponse<H, B> {
    /// Appends the frame to `out`: four bytes kept free for the size, then
    /// header and body, and then the size over those four bytes. A response that
    /// cannot be encoded, or whose size does not fit 32 bits, is an overflow
    /// and leaves `out` as it was.
    pub fn encode(&self, out: &mut Vec<u8>) -> (r: Result<(), CodecError>)
        ensures
            frame_encodable::<H, B>(self.header.model(), self.body.model()) ==> r is Ok
                && final(out)@ == old(out)@ + response_frame::<H, B>(
                self.header.model(),
                self.body.model(),
            ),
            !frame_encodable::<H, B>(self.header.model(), self.body.model()) ==> r == Err::<
                (),
                CodecError,
            >(CodecError::OverflowError) && final(out)@ == old(out)@,
    {
        let ghost before = out@;
        let start = out.len();
        let mut message_size = PosMarker::default();
        message_size.write(out);
        match self.header.encode(out) {
            Ok(()) => {},
            Err(e) => {
                out.truncate(start);
                assert(out@ =~= before);
                return Err(CodecError::OverflowError);
            },
        }
        match self.body.encode(out) {
            Ok(()) => {},
            Err(e) => {
                out.truncate(start);
                assert(out@ =~= before);
                return Err(CodecError::OverflowError);
            },
        }
        let ghost written = out@;
        let ghost size = H::wire(self.header.model()).len() + B::wire(self.body.model()).len();
        assert(written.len() - before.len() - 4 == size);
        match message_size.fill(out) {
            Ok(()) => {
                assert(out@ =~= before + response_frame::<H, B>(
                    self.header.model(),
                    self.body.model(),
                ));
                Ok(())
            },
            Err(e) => {
                out.truncate(start);
                assert(out@ =~= before);
                Err(CodecError::OverflowError)
            },
        }
    }

    /// The frame as bytes of its own: header and body are encoded first and
    /// measured, and the size is put in front of them. The result is the
    /// same, byte for byte, as what `encode` appends.
    pub fn to_bytes(&self) -> (r: Result<Vec<u8>, CodecError>)
        ensures
            frame_encodable::<H, B>(self.header.model(), self.body.model()) ==> r is Ok
                && r.unwrap()@ == response_frame::<H, B>(self.header.model(), self.body.model()),
            !frame_encodable::<H, B>(self.header.model(), self.body.model()) ==> r is Err
                && r->Err_0 == CodecError::OverflowError,
    {
        let mut payload: Vec<u8> = Vec::new();
        self.header.encode(&mut payload)?;
        self.body.encode(&mut payload)?;
        if payload.len() > 0x7FFF_FFFF {
            return Err(CodecError::OverflowError);
        }
        let size: i32 = payload.len() as i32;
        let mut frame: Vec<u8> = Vec::new();
        let _ = size.encode(&mut frame);
        frame.append(&mut payload);
        assert(frame@ =~= response_frame::<H, B>(self.header.model(), self.body.model()));
        Ok(frame)
    }
}

} // verus!
