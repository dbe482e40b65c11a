//! What it means for a model type to have a place in the wire format, and how
//! a counted run of such values is written and read.

use vstd::prelude::*;

verus! {

/// A model type with an encoding. `decode` reads one value from the front of a
/// byte string and says how many bytes it took; the two laws make it the strict
/// inverse of `encode` on valid values.
pub trait Format: Sized {
    /// The value can be encoded: every string and count in it fits its prefix.
    spec fn valid(self) -> bool;

    /// The bytes that stand for the value.
    spec fn encode(self) -> Seq<u8>;

    /// The value at the front of `bytes` and the number of bytes it takes.
    spec fn decode(bytes: Seq<u8>) -> Option<(Self, int)>;

    /// A valid value is read back from its encoding, whatever follows it.
    proof fn lemma_decode_encode(self, rest: Seq<u8>)
        requires
            self.valid(),
        ensures
            Self::decode(self.encode() + rest) == Some((self, self.encode().len() as int)),
    ;

    /// What `decode` accepts is the encoding of the valid value it returns.
    proof fn lemma_encode_decode(bytes: Seq<u8>)
        requires
            Self::decode(bytes) is Some,
        ensures
            ({
                let (value, used) = Self::decode(bytes).unwrap();
                &&& value.valid()
                &&& 0 <= used <= bytes.len()
                &&& value.encode() == bytes.take(used)
            }),
    ;
}

/// The encodings of `items`, one after the other.
pub open spec fn encode_all<T: Format>(items: Seq<T>) -> Seq<u8>
    decreases items.len(),
{
    if items.len() == 0 {
        Seq::empty()
    } else {
        encode_all(items.drop_last()) + items.last().encode()
    }
}

/// Reads `count` values from the front of `bytes`: the values and the number of
/// bytes they took together.
pub open spec fn decode_all<T: Format>(bytes: Seq<u8>, count: nat) -> Option<(Seq<T>, int)>
    decreases count,
{
    if count == 0 {
        Some((Seq::empty(), 0))
    } else {
        match decode_all::<T>(bytes, (count - 1) as nat) {
            None => None,
            Some((items, used)) => match T::decode(bytes.skip(used)) {
                None => None,
                Some((last, more)) => Some((items.push(last), used + more)),
            },
        }
    }
}

/// Every item of the run is valid.
pub open spec fn all_valid<T: Format>(items: Seq<T>) -> bool {
    forall|i: int| 0 <= i < items.len() ==> (#[trigger] items[i]).valid()
}

/// Where fewer values cannot be read, more cannot be read either.
pub proof fn lemma_decode_all_fails_on<T: Format>(bytes: Seq<u8>, fewer: nat, count: nat)
    requires
        fewer <= count,
        decode_all::<T>(bytes, fewer) is None,
    ensures
        decode_all::<T>(bytes, count) is None,
    decreases count,
{
    if fewer < count {
        lemma_decode_all_fails_on::<T>(bytes, fewer, (count - 1) as nat);
    }
}

/// A run of valid values is read back from its encoding, whatever follows it.
pub proof fn lemma_decode_all_encode_all<T: Format>(items: Seq<T>, rest: Seq<u8>)
    requires
        all_valid(items),
    ensures
        decode_all::<T>(encode_all(items) + rest, items.len()) == Some(
            (items, encode_all(items).len() as int),
        ),
    decreases items.len(),
{
    if items.len() > 0 {
        let init = items.drop_last();
        let last = items.last();
        let bytes = encode_all(items) + rest;
        assert(bytes =~= encode_all(init) + (last.encode() + rest));
        lemma_decode_all_encode_all(init, last.encode() + rest);
        assert(bytes.skip(encode_all(init).len() as int) =~= last.encode() + rest);
        last.lemma_decode_encode(rest);
    }
}

/// What `decode_all` accepts is the encoding of the valid values it returns, and
/// it returns as many as were asked for.
pub proof fn lemma_encode_all_decode_all<T: Format>(bytes: Seq<u8>, count: nat)
    requires
        decode_all::<T>(bytes, count) is Some,
    ensures
        ({
            let (items, used) = decode_all::<T>(bytes, count).unwrap();
            &&& items.len() == count
            &&& all_valid(items)
            &&& 0 <= used <= bytes.len()
            &&& encode_all(items) == bytes.take(used)
        }),
    decreases count,
{
    if count > 0 {
        lemma_encode_all_decode_all::<T>(bytes, (count - 1) as nat);
        let (init, used) = decode_all::<T>(bytes, (count - 1) as nat).unwrap();
        T::lemma_encode_decode(bytes.skip(used));
        let (last, _) = T::decode(bytes.skip(used)).unwrap();
        assert(init.push(last).drop_last() =~= init);
    }
}

/// Encoding a run with one more item appends that item's encoding.
pub proof fn lemma_encode_all_push<T: Format>(items: Seq<T>, last: T)
    ensures
        encode_all(items.push(last)) == encode_all(items) + last.encode(),
{
    assert(items.push(last).drop_last() =~= items);
}

/// A run can stand behind a one-byte count: at most 255 items, each of them valid.
pub open spec fn run_valid<T: Format>(items: Seq<T>) -> bool {
    items.len() <= 255 && all_valid(items)
}

/// A counted run on the wire: the number of items in one byte, then the items.
pub open spec fn encode_run<T: Format>(items: Seq<T>) -> Seq<u8> {
    seq![items.len() as u8] + encode_all(items)
}

/// Reads a counted run from the front of `bytes`: the items and the number of
/// bytes that the count and the items took together.
pub open spec fn decode_run<T: Format>(bytes: Seq<u8>) -> Option<(Seq<T>, int)> {
    if bytes.len() == 0 {
        None
    } else {
        match decode_all::<T>(bytes.skip(1), bytes[0] as nat) {
            None => None,
            Some((items, used)) => Some((items, 1 + used)),
        }
    }
}

/// A valid run is read back from its encoding, whatever follows it.
pub proof fn lemma_decode_run_encode_run<T: Format>(items: Seq<T>, rest: Seq<u8>)
    requires
        run_valid(items),
    ensures
        decode_run::<T>(encode_run(items) + rest) == Some((items, encode_run(items).len() as int)),
{
    let bytes = encode_run(items) + rest;
    assert(bytes.skip(1) =~= encode_all(items) + rest);
    lemma_decode_all_encode_all(items, rest);
}

/// What `decode_run` accepts is the encoding of the valid run it returns.
pub proof fn lemma_encode_run_decode_run<T: Format>(bytes: Seq<u8>)
    requires
        decode_run::<T>(bytes) is Some,
    ensures
        ({
            let (items, used) = decode_run::<T>(bytes).unwrap();
            &&& run_valid(items)
            &&& 0 <= used <= bytes.len()
            &&& encode_run(items) == bytes.take(used)
        }),
{
    lemma_encode_all_decode_all::<T>(bytes.skip(1), bytes[0] as nat);
}

} // verus!
