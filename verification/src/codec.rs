use vstd::prelude::*;
use bytes::Buf;
use bytes::BytesMut;
use crate::envelope::{frame_encodable, response_frame, KafkaGenericResponse};
use crate::error::CodecError;
use crate::format::Encode;
use crate::request::{
    lemma_request_parse_bound,
    request_parse,
    HeaderVersion,
    KafkaRequest,
    RequestModel,
};

verus! {

/// A connection's buffer, from the `bytes` crate.
#[verifier::external_type_specification]
#[verifier::external_body]
pub struct ExBytesMut(bytes::BytesMut);

/// The bytes that a buffer holds, first to last.
pub uninterp spec fn buffered(buffer: BytesMut) -> Seq<u8>;

/// Borrows the contents of a buffer through `BytesMut`'s `Deref`. Claimed:
/// the slice is what the buffer holds.
#[verifier::external_body]
fn buffer_bytes(buffer: &BytesMut) -> (r: &[u8])
    ensures
        r@ == buffered(*buffer),
{
    &buffer[..]
}

/// Calls `Buf::advance` of `BytesMut`. Claimed: the first `count` bytes
/// leave the buffer and the others stay as they are. The call panics on a
/// count beyond what the buffer holds.
#[verifier::external_body]
fn buffer_advance(buffer: &mut BytesMut, count: usize)
    requires
        count <= buffered(*old(buffer)).len(),
    ensures
        buffered(*final(buffer)) == buffered(*old(buffer)).skip(count as int),
{
    buffer.advance(count)
}

/// Calls `BytesMut::extend_from_slice`. Claimed: the bytes are appended to
/// what the buffer holds.
#[verifier::external_body]
fn buffer_extend(buffer: &mut BytesMut, bytes: &[u8])
    ensures
        buffered(*final(buffer)) == buffered(*old(buffer)) + bytes@,
{
    buffer.extend_from_slice(bytes)
}

/// What a receive buffer gives when requests are taken off its front for as
/// long as there is a whole one: the requests in order, the bytes that stay,
/// and the error that stopped the taking, if it was one.
pub ghost struct Drained {
    pub requests: Seq<RequestModel>,
    pub rest: Seq<u8>,
    pub failure: Option<CodecError>,
}

/// The requests at the front of `s`, up to the first frame that is not all
/// there or not well-formed.
pub open spec fn drained(s: Seq<u8>, version: HeaderVersion) -> Drained
    decreases s.len(),
{
    match request_parse(s, version) {
        Ok((m, n)) => if 0 < n <= s.len() {
            let later = drained(s.skip(n as int), version);
            Drained {
                requests: seq![m] + later.requests,
                rest: later.rest,
                failure: later.failure,
            }
        } else {
            Drained { requests: Seq::empty(), rest: s, failure: None }
        },
        Err(CodecError::IncompleteFrame) => Drained {
            requests: Seq::empty(),
            rest: s,
            failure: None,
        },
        Err(e) => Drained { requests: Seq::empty(), rest: s, failure: Some(e) },
    }
}

/// Where the taking stops: the bytes that stay are the end of the buffer,
/// and what stopped the taking is what a decode of them says. Without an
/// error they are a frame that is not all there yet.
pub proof fn lemma_drained_rest(s: Seq<u8>, version: HeaderVersion)
    ensures
        drained(s, version).rest.len() <= s.len(),
        drained(s, version).rest == s.skip(s.len() - drained(s, version).rest.len()),
        match drained(s, version).failure {
            None => request_parse(drained(s, version).rest, version) == Err::<
                (RequestModel, nat),
                CodecError,
            >(CodecError::IncompleteFrame),
            Some(e) => e != CodecError::IncompleteFrame && request_parse(
                drained(s, version).rest,
                version,
            ) == Err::<(RequestModel, nat), CodecError>(e),
        },
    decreases s.len(),
{
    lemma_request_parse_bound(s, version);
    match request_parse(s, version) {
        Ok((m, n)) => {
            let tail = s.skip(n as int);
            lemma_drained_rest(tail, version);
            let kept = drained(tail, version).rest;
            assert(tail.skip(tail.len() - kept.len()) =~= s.skip(s.len() - kept.len()));
        },
        Err(e) => {
            assert(s.skip(0) =~= s);
        },
    }
}

/// The models of requests, in order.
pub open spec fn request_models(requests: Seq<KafkaRequest>) -> Seq<RequestModel> {
    Seq::new(requests.len(), |i: int| requests[i].model())
}

/// The framing adapter of one connection: it takes requests off the front
/// of the receive buffer and puts responses at the end of the send buffer.
#[derive(Debug, Clone, Copy, PartialEq, Eq)]
pub struct KafkaCodec {
    /// The shape of header that requests on this connection have.
    pub header_version: HeaderVersion,
}

impl KafkaCodec {
    pub fn new(header_version: HeaderVersion) -> (r: Self)
        ensures
            r.header_version == header_version,
    {
        KafkaCodec { header_version }
    }

    /// One attempt to take a request off the front of `src`.
    ///
    /// A whole request leaves the buffer, frame and all, and is handed out.
    /// Where the frame is not all there yet, nothing is taken and the answer
    /// is `None`: the caller waits for more bytes. Any other failure is an
    /// error and leaves the buffer as it was; the connection is then to be
    /// closed.
    pub fn decode(&self, src: &mut BytesMut) -> (r: Result<Option<KafkaRequest>, CodecError>)
        ensures
            match request_parse(buffered(*old(src)), self.header_version) {
                Ok((m, n)) => r is Ok && r.unwrap() is Some && r.unwrap().unwrap().model() == m
                    && buffered(*final(src)) == buffered(*old(src)).skip(n as int),
                Err(CodecError::IncompleteFrame) => r is Ok && r.unwrap() is None && buffered(
                    *final(src),
                ) == buffered(*old(src)),
                Err(e) => r is Err && r->Err_0 == e && buffered(*final(src)) == buffered(
                    *old(src),
                ),
            },
    {
        let attempt = KafkaRequest::decode(buffer_bytes(src), self.header_version);
        match attempt {
            Ok((request, taken)) => {
                buffer_advance(src, taken);
                Ok(Some(request))
            },
            Err(CodecError::IncompleteFrame) => Ok(None),
            Err(e) => Err(e),
        }
    }

    /// Takes every whole request off the front of `src`, in order. It stops
    /// at the first frame that is not all there, which stays in the buffer
    /// for the bytes to come, or at the first malformed one, whose error is
    /// handed out beside the requests that came before it.
    pub fn drain(&self, src: &mut BytesMut) -> (r: (Vec<KafkaRequest>, Option<CodecError>))
        ensures
            request_models(r.0@) == drained(buffered(*old(src)), self.header_version).requests,
            buffered(*final(src)) == drained(buffered(*old(src)), self.header_version).rest,
            r.1 == drained(buffered(*old(src)), self.header_version).failure,
    {
        let ghost start = buffered(*src);
        let ghost version = self.header_version;
        let mut requests: Vec<KafkaRequest> = Vec::new();
        assert(request_models(requests@) =~= Seq::empty());
        assert(Seq::<RequestModel>::empty() + drained(start, version).requests =~= drained(
            start,
            version,
        ).requests);
        loop
            invariant
                version == self.header_version,
                start == buffered(*old(src)),
                drained(start, version).requests == request_models(requests@) + drained(
                    buffered(*src),
                    version,
                ).requests,
                drained(start, version).rest == drained(buffered(*src), version).rest,
                drained(start, version).failure == drained(buffered(*src), version).failure,
            decreases buffered(*src).len(),
        {
            let ghost before = buffered(*src);
            let ghost done = request_models(requests@);
            proof {
                lemma_request_parse_bound(before, version);
            }
            match self.decode(src) {
                Ok(Some(request)) => {
                    requests.push(request);
                    proof {
                        let later = drained(buffered(*src), version).requests;
                        assert(request_models(requests@) =~= done + seq![request.model()]);
                        assert(done + (seq![request.model()] + later) =~= (done + seq![
                            request.model(),
                        ]) + later);
                    }
                },
                Ok(None) => {
                    assert(done + Seq::<RequestModel>::empty() =~= done);
                    return (requests, None);
                },
                Err(e) => {
                    assert(done + Seq::<RequestModel>::empty() =~= done);
                    return (requests, Some(e));
                },
            }
        }
    }

    /// Puts the frame of `item` at the end of `dst`. The frame is built
    /// whole before a byte of it reaches the buffer: on an error the buffer
    /// is as it was.
    pub fn encode<H: Encode, B: Encode>(
        &self,
        item: KafkaGenericResponse<H, B>,
        dst: &mut BytesMut,
    ) -> (r: Result<(), CodecError>)
        ensures
            frame_encodable::<H, B>(item.header.model(), item.body.model()) ==> r is Ok
                && buffered(*final(dst)) == buffered(*old(dst)) + response_frame::<H, B>(
                item.header.model(),
                item.body.model(),
            ),
            !frame_encodable::<H, B>(item.header.model(), item.body.model()) ==> r == Err::<
                (),
                CodecError,
            >(CodecError::OverflowError) && buffered(*final(dst)) == buffered(*old(dst)),
    {
        let mut frame: Vec<u8> = Vec::new();
        match item.encode(&mut frame) {
            Ok(()) => {
                assert(frame@ =~= response_frame::<H, B>(item.header.model(), item.body.model()));
                buffer_extend(dst, frame.as_slice());
                Ok(())
            },
            Err(e) => Err(CodecError::OverflowError),
        }
    }
}

} // verus!
