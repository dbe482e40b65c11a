//! What the stored types share: each has a model with a place in the wire
//! format, can append its encoding to a sink, and can be read from bytes. Runs of
//! stored values are written and read here once for all of them.

use vstd::prelude::*;

use crate::error::Error;
use crate::format::{
    decode_all, decode_run, encode_all, encode_run, lemma_decode_all_fails_on,
    lemma_encode_all_push, run_valid, Format,
};
use crate::sink::{write_u8, written};
use crate::wire::lemma_be_bytes_one;

verus! {

/// A type that is stored in the tree and travels on the wire.
pub(crate) trait Stored: Sized {
    /// The mathematical model of the type.
    type Model: Format;

    /// The model of this value.
    spec fn model(&self) -> Self::Model;

    /// Appends the encoding of the value to `sink`, and succeeds.
    fn write(&self, sink: &mut Vec<u8>) -> (result: Result<(), Error>)
        requires
            self.model().valid(),
        ensures
            result is Ok,
            final(sink)@ == old(sink)@ + self.model().encode(),
    ;

    /// Reads one value at `pos`: the value and the position after it, or `None`
    /// where the bytes at `pos` are not the encoding of a value.
    fn read(bytes: &[u8], pos: usize) -> (read: Option<(Self, usize)>)
        requires
            pos <= bytes@.len(),
        ensures
            match read {
                Some((item, next)) => pos <= next <= bytes@.len() && Self::Model::decode(
                    bytes@.skip(pos as int),
                ) == Some((item.model(), next - pos)),
                None => Self::Model::decode(bytes@.skip(pos as int)) is None,
            },
    ;
}

/// The models of stored values, in their order.
pub(crate) open spec fn models<T: Stored>(items: Seq<T>) -> Seq<T::Model> {
    items.map_values(|item: T| item.model())
}

/// Appends a counted run to `sink`: the number of items, then each item.
pub(crate) fn write_run<T: Stored>(items: &Vec<T>, sink: &mut Vec<u8>) -> (result: Result<(), Error>)
    requires
        run_valid(models(items@)),
    ensures
        result is Ok,
        final(sink)@ == old(sink)@ + encode_run(models(items@)),
{
    let ghost before = sink@;
    let ghost all = models(items@);
    written(write_u8(sink, items.len() as u8))?;
    proof {
        lemma_be_bytes_one(all.len() as u8);
    }
    let mut i: usize = 0;
    while i < items.len()
        invariant
            i <= items.len(),
            all == models(items@),
            run_valid(all),
            sink@ == before + seq![all.len() as u8] + encode_all(all.take(i as int)),
        decreases items.len() - i,
    {
        proof {
            assert(all.take(i + 1) =~= all.take(i as int).push(all[i as int]));
            lemma_encode_all_push(all.take(i as int), all[i as int]);
        }
        items[i].write(sink)?;
        i += 1;
    }
    assert(all.take(i as int) =~= all);
    Ok(())
}

/// Reads a counted run at `pos`: the items and the position after them, or
/// `None` where the bytes at `pos` are not the encoding of a run.
pub(crate) fn read_run<T: Stored>(bytes: &[u8], pos: usize) -> (read: Option<(Vec<T>, usize)>)
    requires
        pos <= bytes@.len(),
    ensures
        match read {
            Some((items, next)) => pos <= next <= bytes@.len() && decode_run::<T::Model>(
                bytes@.skip(pos as int),
            ) == Some((models(items@), next - pos)),
            None => decode_run::<T::Model>(bytes@.skip(pos as int)) is None,
        },
{
    if pos >= bytes.len() {
        return None;
    }
    let count = bytes[pos] as usize;
    let start = pos + 1;
    let ghost run = bytes@.skip(start as int);
    assert(bytes@.skip(pos as int).skip(1) =~= run);
    let mut items: Vec<T> = Vec::new();
    let mut at: usize = start;
    while items.len() < count
        invariant
            items.len() <= count <= 255,
            start <= at <= bytes@.len(),
            run == bytes@.skip(start as int),
            decode_all::<T::Model>(run, items.len() as nat) == Some((models(items@), at - start)),
        ensures
            items.len() == count || decode_all::<T::Model>(run, count as nat) is None,
        decreases count - items.len(),
    {
        assert(run.skip(at - start) =~= bytes@.skip(at as int));
        match T::read(bytes, at) {
            None => {
                proof {
                    lemma_decode_all_fails_on::<T::Model>(
                        run,
                        (items.len() + 1) as nat,
                        count as nat,
                    );
                }
                break ;
            },
            Some((item, next)) => {
                items.push(item);
                at = next;
            },
        }
    }
    if items.len() < count {
        None
    } else {
        Some((items, at))
    }
}

} // verus!
