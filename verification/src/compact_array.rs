use vstd::prelude::*;
use vstd::slice::slice_subrange;
use crate::error::CodecError;
use crate::format::{settled, Parsed, WireFormat};
use crate::unsigned_varint::{
    lemma_groups_bound,
    lemma_groups_extend,
    varint_parse,
    varint_wire,
    UnsignedVarInt,
};

verus! {

/// An ordered sequence whose wire form is a varint of the count plus one,
/// zero for the empty sequence, and then each element's own wire form.
#[derive(Debug, Clone, PartialEq, Eq)]
pub struct CompactArray<T> {
    pub entries: Vec<T>,
}

/// The models of the elements, in order.
pub open spec fn models_of<T: WireFormat>(items: Seq<T>) -> Seq<T::Model> {
    Seq::new(items.len(), |i: int| items[i].model())
}

/// Whether each element fits its length fields.
pub open spec fn all_encodable<T: WireFormat>(ms: Seq<T::Model>) -> bool {
    forall|i: int| 0 <= i < ms.len() ==> T::encodable(#[trigger] ms[i])
}

/// The wire forms of the elements, one after the other.
pub open spec fn elements_wire<T: WireFormat>(ms: Seq<T::Model>) -> Seq<u8>
    decreases ms.len(),
{
    if ms.len() == 0 {
        Seq::empty()
    } else {
        T::wire(ms[0]) + elements_wire::<T>(ms.drop_first())
    }
}

/// The wire form of a sequence: its count field, then its elements.
pub open spec fn compact_array_wire<T: WireFormat>(ms: Seq<T::Model>) -> Seq<u8> {
    if ms.len() == 0 {
        varint_wire(0)
    } else {
        varint_wire(ms.len() + 1) + elements_wire::<T>(ms)
    }
}

/// What the first bytes of `s` decode to as `count` elements in a row.
pub open spec fn elements_parse<T: WireFormat>(s: Seq<u8>, count: nat) -> Parsed<Seq<T::Model>>
    decreases count,
{
    if count == 0 {
        Ok((Seq::empty(), 0))
    } else {
        match T::parse(s) {
            Err(e) => Err(e),
            Ok((m, n)) => if n > s.len() {
                Err(CodecError::IncompleteFrame)
            } else {
                match elements_parse::<T>(s.skip(n as int), (count - 1) as nat) {
                    Err(e) => Err(e),
                    Ok((ms, k)) => Ok((seq![m] + ms, n + k)),
                }
            },
        }
    }
}

/// What the first bytes of `s` decode to as a sequence.
pub open spec fn compact_array_parse<T: WireFormat>(s: Seq<u8>) -> Parsed<Seq<T::Model>> {
    match varint_parse(s) {
        Err(e) => Err(e),
        Ok((n, k)) => if n == 0 {
            Ok((Seq::empty(), k))
        } else if k > s.len() {
            Err(CodecError::IncompleteFrame)
        } else {
            match elements_parse::<T>(s.skip(k as int), (n - 1) as nat) {
                Err(e) => Err(e),
                Ok((ms, used)) => Ok((ms, k + used)),
            }
        },
    }
}

/// `p`, read behind `pos` bytes and after the elements `done`.
pub open spec fn after_elements<M>(p: Parsed<Seq<M>>, done: Seq<M>, pos: nat) -> Parsed<Seq<M>> {
    match p {
        Ok((ms, k)) => Ok((done + ms, pos + k)),
        Err(e) => Err(e),
    }
}

/// Elements that were encoded in a row decode to themselves, and the decode
/// stops where their bytes end.
pub proof fn lemma_elements_round_trip<T: WireFormat>(ms: Seq<T::Model>, rest: Seq<u8>)
    requires
        all_encodable::<T>(ms),
    ensures
        elements_parse::<T>(elements_wire::<T>(ms) + rest, ms.len()) == Ok::<
            (Seq<T::Model>, nat),
            CodecError,
        >((ms, elements_wire::<T>(ms).len())),
    decreases ms.len(),
{
    if ms.len() > 0 {
        let first = T::wire(ms[0]);
        let tail = ms.drop_first();
        let s = elements_wire::<T>(ms) + rest;
        assert(s =~= first + (elements_wire::<T>(tail) + rest));
        T::lemma_round_trip(ms[0], elements_wire::<T>(tail) + rest);
        assert(s.skip(first.len() as int) =~= elements_wire::<T>(tail) + rest);
        assert(all_encodable::<T>(tail)) by {
            assert forall|i: int| 0 <= i < tail.len() implies T::encodable(#[trigger] tail[i]) by {
                assert(tail[i] == ms[i + 1]);
            }
        }
        lemma_elements_round_trip::<T>(tail, rest);
        assert(seq![ms[0]] + tail =~= ms);
    } else {
        assert(ms =~= Seq::empty());
    }
}

/// Elements in a row never take more bytes than there are.
pub proof fn lemma_elements_bound<T: WireFormat>(s: Seq<u8>, count: nat)
    ensures
        elements_parse::<T>(s, count) is Ok ==> elements_parse::<T>(s, count).unwrap().1
            <= s.len() && elements_parse::<T>(s, count).unwrap().0.len() == count,
    decreases count,
{
    if count > 0 {
        match T::parse(s) {
            Err(e) => {},
            Ok((m, n)) => {
                if n <= s.len() {
                    lemma_elements_bound::<T>(s.skip(n as int), (count - 1) as nat);
                }
            },
        }
    }
}

/// Elements that were found, or refused, stay so when more bytes arrive.
pub proof fn lemma_elements_extend<T: WireFormat>(s: Seq<u8>, more: Seq<u8>, count: nat)
    requires
        settled(elements_parse::<T>(s, count)),
    ensures
        elements_parse::<T>(s + more, count) == elements_parse::<T>(s, count),
    decreases count,
{
    if count > 0 {
        T::lemma_parse_extend(s, more);
        match T::parse(s) {
            Err(e) => {},
            Ok((m, n)) => {
                assert((s + more).skip(n as int) =~= s.skip(n as int) + more);
                lemma_elements_extend::<T>(s.skip(n as int), more, (count - 1) as nat);
            },
        }
    }
}

/// The wire form of a sequence with one element more.
pub proof fn lemma_elements_wire_push<T: WireFormat>(ms: Seq<T::Model>, m: T::Model)
    ensures
        elements_wire::<T>(ms.push(m)) == elements_wire::<T>(ms) + T::wire(m),
    decreases ms.len(),
{
    if ms.len() == 0 {
        assert(ms.push(m).drop_first() =~= Seq::empty());
        assert(ms.push(m)[0] == m);
        assert(elements_wire::<T>(ms.push(m).drop_first()) =~= Seq::empty());
        assert(elements_wire::<T>(ms.push(m)) =~= T::wire(m) + Seq::empty());
        assert(elements_wire::<T>(ms) + T::wire(m) =~= T::wire(m));
    } else {
        assert(ms.push(m).drop_first() =~= ms.drop_first().push(m));
        lemma_elements_wire_push::<T>(ms.drop_first(), m);
        assert(T::wire(ms[0]) + (elements_wire::<T>(ms.drop_first()) + T::wire(m)) =~= (T::wire(
            ms[0],
        ) + elements_wire::<T>(ms.drop_first())) + T::wire(m));
    }
}

impl<T> CompactArray<T> {
    pub fn new(entries: Vec<T>) -> (r: Self)
        ensures
            r.entries == entries,
    {
        CompactArray { entries }
    }

    /// An absent sequence is the empty one: the two share a wire form.
    pub fn from_option(entries: Option<Vec<T>>) -> (r: Self)
        ensures
            entries is Some ==> r.entries == entries.unwrap(),
            entries is None ==> r.entries@ == Seq::<T>::empty(),
    {
        match entries {
            Some(items) => CompactArray { entries: items },
            None => CompactArray { entries: Vec::new() },
        }
    }
}

impl<T> From<Vec<T>> for CompactArray<T> {
    fn from(value: Vec<T>) -> (r: Self) {
        CompactArray { entries: value }
    }
}

impl<T> vstd::std_specs::convert::FromSpecImpl<Vec<T>> for CompactArray<T> {
    open spec fn obeys_from_spec() -> bool {
        true
    }

    open spec fn from_spec(value: Vec<T>) -> Self {
        CompactArray { entries: value }
    }
}

impl<T: WireFormat> WireFormat for CompactArray<T> {
    type Model = Seq<T::Model>;

    open spec fn model(&self) -> Seq<T::Model> {
        models_of::<T>(self.entries@)
    }

    open spec fn encodable(m: Seq<T::Model>) -> bool {
        m.len() + 1 <= u32::MAX && all_encodable::<T>(m)
    }

    open spec fn wire(m: Seq<T::Model>) -> Seq<u8> {
        compact_array_wire::<T>(m)
    }

    open spec fn parse(s: Seq<u8>) -> Parsed<Seq<T::Model>> {
        compact_array_parse::<T>(s)
    }

    proof fn lemma_round_trip(m: Seq<T::Model>, rest: Seq<u8>) {
        if m.len() == 0 {
            UnsignedVarInt::lemma_round_trip(0, rest);
            assert(m =~= Seq::empty());
        } else {
            let n = (m.len() + 1) as u32;
            let head = varint_wire(n as nat);
            let body = elements_wire::<T>(m);
            let s = compact_array_wire::<T>(m) + rest;
            assert(s =~= head + (body + rest));
            UnsignedVarInt::lemma_round_trip(n, body + rest);
            assert(s.skip(head.len() as int) =~= body + rest);
            lemma_elements_round_trip::<T>(m, rest);
        }
    }

    proof fn lemma_parse_bound(s: Seq<u8>) {
        lemma_groups_bound(s, 0);
        match varint_parse(s) {
            Err(e) => {},
            Ok((n, k)) => {
                if n != 0 && k <= s.len() {
                    lemma_elements_bound::<T>(s.skip(k as int), (n - 1) as nat);
                }
            },
        }
    }

    proof fn lemma_parse_extend(s: Seq<u8>, more: Seq<u8>) {
        lemma_groups_bound(s, 0);
        lemma_groups_extend(s, more, 0);
        match varint_parse(s) {
            Err(e) => {},
            Ok((n, k)) => {
                if n != 0 {
                    assert((s + more).skip(k as int) =~= s.skip(k as int) + more);
                    lemma_elements_extend::<T>(s.skip(k as int), more, (n - 1) as nat);
                }
            },
        }
    }

    fn encode(&self, out: &mut Vec<u8>) -> (r: Result<(), CodecError>) {
        let ghost before = out@;
        let ghost ms = self.model();
        let start = out.len();
        let count = self.entries.len();
        if count == 0 {
            return UnsignedVarInt(0).encode(out);
        }
        if count >= 0xFFFF_FFFF {
            return Err(CodecError::OverflowError);
        }
        let _ = UnsignedVarInt((count + 1) as u32).encode(out);
        let ghost head = out@;
        let mut i: usize = 0;
        while i < count
            invariant
                i <= count,
                count == self.entries@.len(),
                before == old(out)@,
                start == before.len(),
                ms == self.model(),
                head == before + varint_wire((count + 1) as nat),
                all_encodable::<T>(ms.take(i as int)),
                out@ == head + elements_wire::<T>(ms.take(i as int)),
            decreases count - i,
        {
            let ghost prev = out@;
            let item = &self.entries[i];
            assert(item.model() == ms[i as int]);
            match item.encode(out) {
                Ok(()) => {},
                Err(e) => {
                    assert(!T::encodable(ms[i as int]));
                    assert(out@ == prev);
                    out.truncate(start);
                    assert(out@ =~= before);
                    return Err(CodecError::OverflowError);
                },
            }
            proof {
                assert(ms.take(i as int + 1) =~= ms.take(i as int).push(ms[i as int]));
                lemma_elements_wire_push::<T>(ms.take(i as int), ms[i as int]);
                assert(out@ =~= head + elements_wire::<T>(ms.take(i as int + 1)));
                assert(all_encodable::<T>(ms.take(i as int + 1)));
            }
            i += 1;
        }
        proof {
            assert(ms.take(count as int) =~= ms);
            assert(out@ =~= before + compact_array_wire::<T>(ms));
        }
        Ok(())
    }

    fn decode(input: &[u8]) -> (r: Result<(Self, usize), CodecError>) {
        let (length, taken) = UnsignedVarInt::decode(input)?;
        proof {
            lemma_groups_bound(input@, 0);
        }
        let mut entries: Vec<T> = Vec::new();
        if length.0 == 0 {
            assert(models_of::<T>(entries@) =~= Seq::empty());
            return Ok((CompactArray { entries }, taken));
        }
        let count: u32 = length.0 - 1;
        let ghost body = input@.skip(taken as int);
        let mut pos: usize = taken;
        let mut i: u32 = 0;
        while i < count
            invariant
                i <= count,
                taken <= pos <= input@.len(),
                varint_parse(input@) == Ok::<(u32, nat), CodecError>((length.0, taken as nat)),
                length.0 == count + 1,
                body == input@.skip(taken as int),
                elements_parse::<T>(body, count as nat) == after_elements(
                    elements_parse::<T>(input@.skip(pos as int), (count - i) as nat),
                    models_of::<T>(entries@),
                    (pos - taken) as nat,
                ),
            decreases count - i,
        {
            let rest = slice_subrange(input, pos, input.len());
            assert(rest@ =~= input@.skip(pos as int));
            proof {
                T::lemma_parse_bound(rest@);
            }
            let (item, used) = match T::decode(rest) {
                Ok(found) => found,
                Err(e) => {
                    assert(T::parse(input@.skip(pos as int)) == Err::<(T::Model, nat), CodecError>(e));
                    assert(elements_parse::<T>(input@.skip(pos as int), (count - i) as nat) is Err);
                    assert(elements_parse::<T>(body, count as nat) is Err);
                    return Err(e);
                },
            };
            let ghost done = models_of::<T>(entries@);
            entries.push(item);
            proof {
                assert(models_of::<T>(entries@) =~= done + seq![item.model()]);
                assert(input@.skip(pos as int).skip(used as int) =~= input@.skip(pos + used));
                let tail = elements_parse::<T>(input@.skip(pos + used), (count - i - 1) as nat);
                if tail is Ok {
                    assert(done + (seq![item.model()] + tail.unwrap().0) =~= (done + seq![
                        item.model(),
                    ]) + tail.unwrap().0);
                }
            }
            pos = pos + used;
            i += 1;
        }
        proof {
            assert(models_of::<T>(entries@) + Seq::<T::Model>::empty() =~= models_of::<T>(
                entries@,
            ));
        }
        Ok((CompactArray { entries }, pos))
    }
}

} // verus!
