use vstd::prelude::*;
use vstd::slice::{slice_subrange, slice_to_vec};
use crate::error::CodecError;

verus! {

/// What a parse gives, as mathematics: the value's model and the number of bytes
/// it took, or the reason why there is no value.
pub type Parsed<M> = Result<(M, nat), CodecError>;

/// Whether a parse has an answer that more bytes cannot change: a value, or
/// an error other than `IncompleteFrame`.
pub open spec fn settled<M>(p: Parsed<M>) -> bool {
    p != Err::<(M, nat), CodecError>(CodecError::IncompleteFrame)
}

/// A type with a wire form.
///
/// `wire` and `parse` are the grammar, as mathematics; `encode` and `decode`
/// are the code that is proved to follow it.
pub trait WireFormat: Sized {
    /// The mathematical value that a Rust value stands for.
    type Model;

    spec fn model(&self) -> Self::Model;

    /// Whether the value fits its length fields.
    spec fn encodable(m: Self::Model) -> bool;

    /// The bytes of an encodable value.
    spec fn wire(m: Self::Model) -> Seq<u8>;

    /// What the first bytes of `s` decode to.
    spec fn parse(s: Seq<u8>) -> Parsed<Self::Model>;

    /// Decoding what was encoded gives the value back and takes exactly the
    /// bytes that the encoding put there, whatever follows them.
    proof fn lemma_round_trip(m: Self::Model, rest: Seq<u8>)
        requires
            Self::encodable(m),
        ensures
            Self::parse(Self::wire(m) + rest) == Ok::<(Self::Model, nat), CodecError>(
                (m, Self::wire(m).len()),
            ),
    ;

    /// A parse never takes more bytes than there are.
    proof fn lemma_parse_bound(s: Seq<u8>)
        ensures
            Self::parse(s) is Ok ==> Self::parse(s).unwrap().1 <= s.len(),
    ;

    /// A parse that has an answer keeps it when more bytes arrive: only
    /// `IncompleteFrame` can change.
    proof fn lemma_parse_extend(s: Seq<u8>, more: Seq<u8>)
        requires
            settled(Self::parse(s)),
        ensures
            Self::parse(s + more) == Self::parse(s),
    ;

    /// Appends the wire form to `out`. A value that does not fit its length
    /// fields gives `OverflowError` and leaves `out` as it was.
    fn encode(&self, out: &mut Vec<u8>) -> (r: Result<(), CodecError>)
        ensures
            Self::encodable(self.model()) ==> r is Ok && final(out)@ == old(out)@ + Self::wire(
                self.model(),
            ),
            !Self::encodable(self.model()) ==> r == Err::<(), CodecError>(
                CodecError::OverflowError,
            ) && final(out)@ == old(out)@,
    ;

    /// Decodes one value from the beginning of `input` and says how many bytes
    /// it took.
    fn decode(input: &[u8]) -> (r: Result<(Self, usize), CodecError>)
        ensures
            match Self::parse(input@) {
                Ok((m, n)) => r is Ok && r.unwrap().0.model() == m && r.unwrap().1 == n,
                Err(e) => r is Err && r->Err_0 == e,
            },
    ;
}

/// A type that is only ever written: it has a wire form and no parser.
pub trait Encode: Sized {
    /// The mathematical value that a Rust value stands for.
    type Model;

    spec fn model(&self) -> Self::Model;

    /// Whether the value fits its length fields.
    spec fn encodable(m: Self::Model) -> bool;

    /// The bytes of an encodable value.
    spec fn wire(m: Self::Model) -> Seq<u8>;

    /// Appends the wire form to `out`. A value that does not fit its length
    /// fields gives `OverflowError` and leaves `out` as it was.
    fn encode(&self, out: &mut Vec<u8>) -> (r: Result<(), CodecError>)
        ensures
            Self::encodable(self.model()) ==> r is Ok && final(out)@ == old(out)@ + Self::wire(
                self.model(),
            ),
            !Self::encodable(self.model()) ==> r == Err::<(), CodecError>(
                CodecError::OverflowError,
            ) && final(out)@ == old(out)@,
    ;
}

/// What the bytes of `s` from position `pos` on decode to, with the position
/// behind the value in place of the number of bytes taken.
pub open spec fn field_at<T: WireFormat>(s: Seq<u8>, pos: nat) -> Parsed<T::Model> {
    if pos > s.len() {
        Err(CodecError::IncompleteFrame)
    } else {
        match T::parse(s.skip(pos as int)) {
            Ok((m, n)) => Ok((m, pos + n)),
            Err(e) => Err(e),
        }
    }
}

/// A field that is found ends inside the input.
pub proof fn lemma_field_at_bound<T: WireFormat>(s: Seq<u8>, pos: nat)
    ensures
        field_at::<T>(s, pos) is Ok ==> pos <= field_at::<T>(s, pos).unwrap().1 <= s.len(),
{
    if pos <= s.len() {
        T::lemma_parse_bound(s.skip(pos as int));
    }
}

/// A field that has an answer keeps it when more bytes arrive.
pub proof fn lemma_field_at_extend<T: WireFormat>(s: Seq<u8>, more: Seq<u8>, pos: nat)
    requires
        settled(field_at::<T>(s, pos)),
    ensures
        field_at::<T>(s + more, pos) == field_at::<T>(s, pos),
{
    assert((s + more).skip(pos as int) =~= s.skip(pos as int) + more);
    T::lemma_parse_extend(s.skip(pos as int), more);
}

/// A field that lies at `pos`, encoded, is found there.
pub proof fn lemma_field_at_wire<T: WireFormat>(
    s: Seq<u8>,
    pos: nat,
    m: T::Model,
)
    requires
        T::encodable(m),
        pos + T::wire(m).len() <= s.len(),
        s.subrange(pos as int, (pos + T::wire(m).len()) as int) == T::wire(m),
    ensures
        field_at::<T>(s, pos) == Ok::<(T::Model, nat), CodecError>((m, pos + T::wire(m).len())),
{
    let w = T::wire(m);
    let rest = s.skip((pos + w.len()) as int);
    assert(s.skip(pos as int) =~= w + rest);
    T::lemma_round_trip(m, rest);
}

/// Appends `bytes` to `out`.
pub fn append_bytes(out: &mut Vec<u8>, bytes: &[u8])
    ensures
        final(out)@ == old(out)@ + bytes@,
{
    let mut copy = slice_to_vec(bytes);
    out.append(&mut copy);
}

/// Decodes one value that begins at `pos` and gives the position behind it.
pub fn decode_at<T: WireFormat>(input: &[u8], pos: usize) -> (r: Result<(T, usize), CodecError>)
    ensures
        match field_at::<T>(input@, pos as nat) {
            Ok((m, end)) => r is Ok && r.unwrap().0.model() == m && r.unwrap().1 == end && pos
                <= end <= input@.len(),
            Err(e) => r is Err && r->Err_0 == e,
        },
{
    if pos > input.len() {
        return Err(CodecError::IncompleteFrame);
    }
    let rest = slice_subrange(input, pos, input.len());
    assert(rest@ =~= input@.skip(pos as int));
    proof {
        T::lemma_parse_bound(rest@);
    }
    match T::decode(rest) {
        Ok((value, taken)) => Ok((value, pos + taken)),
        Err(e) => Err(e),
    }
}

} // verus!
