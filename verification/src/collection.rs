//! A collection: a name and a set of entries, each a value under a string key.
//! The entries are kept in key order, which is also the order in which they are
//! written to the wire.

use vstd::prelude::*;

use crate::data::{Data, DataView};
use crate::entries::{
    found, key_lt, lemma_key_transitive, lemma_key_trichotomy, lemma_lookup_upsert,
    lemma_lookup_upsert_other, lemma_lookup_without, lemma_lookup_without_other,
    lemma_lower_bound, lemma_lower_bound_is, lemma_upsert_sorted, lemma_upsert_twice,
    lemma_without_absent, lemma_without_sorted, lemma_without_then_upsert, lookup, lower_bound,
    sorted, upsert, without, EntryView,
};
use crate::error::{Error, Missing};
use crate::format::{
    decode_run, encode_run, lemma_decode_run_encode_run, lemma_encode_run_decode_run, run_valid,
    Format,
};
use crate::order::bytes_lt;
use crate::sink::{write_string, written};
use crate::stored::{models, read_run, write_run, Stored};
use crate::wire::{
    decode_text, encode_text, fits, lemma_decode_text_of_encoded, lemma_encode_text_of_decoded,
    read_text, text_fits,
};

verus! {

/// The model of a [`Collection`]: its name and its entries in key order.
pub struct CollectionView {
    pub name: Seq<char>,
    pub entries: Seq<EntryView>,
}

impl CollectionView {
    /// The collection with `name` and no entries.
    pub open spec fn empty(name: Seq<char>) -> CollectionView {
        CollectionView { name, entries: Seq::empty() }
    }

    /// Some entry has the key.
    pub open spec fn contains(self, key: Seq<char>) -> bool {
        found(self.entries, key)
    }

    /// The value under the key, if there is one.
    pub open spec fn get(self, key: Seq<char>) -> Option<DataView> {
        lookup(self.entries, key)
    }

    /// The collection can take `value` under `key`: both fit the wire format, and
    /// the key is already there or there is room for one more entry.
    pub open spec fn accepts(self, key: Seq<char>, value: DataView) -> bool {
        &&& text_fits(key)
        &&& value.valid()
        &&& (self.contains(key) || self.entries.len() < 255)
    }

    /// The collection with `value` under `key`, whatever was under it before.
    pub open spec fn add(self, key: Seq<char>, value: DataView) -> CollectionView {
        CollectionView { name: self.name, entries: upsert(self.entries, key, value) }
    }

    /// The collection with nothing under `key`.
    pub open spec fn delete(self, key: Seq<char>) -> CollectionView {
        CollectionView { name: self.name, entries: without(self.entries, key) }
    }

    /// Adding an entry that the collection accepts gives a valid collection.
    pub proof fn lemma_add_valid(self, key: Seq<char>, value: DataView)
        requires
            self.valid(),
            self.accepts(key, value),
        ensures
            self.add(key, value).valid(),
    {
        lemma_upsert_sorted(self.entries, key, value);
        lemma_lower_bound(self.entries, key);
    }

    /// Deleting a key gives a valid collection.
    pub proof fn lemma_delete_valid(self, key: Seq<char>)
        requires
            self.valid(),
        ensures
            self.delete(key).valid(),
    {
        lemma_without_sorted(self.entries, key);
        lemma_lower_bound(self.entries, key);
    }

    /// After an add the new value is found under the key, and under every other
    /// key what was found before.
    pub proof fn lemma_get_after_add(self, key: Seq<char>, value: DataView, other: Seq<char>)
        requires
            self.valid(),
        ensures
            self.add(key, value).get(other) == if other == key {
                Some(value)
            } else {
                self.get(other)
            },
    {
        if other == key {
            lemma_lookup_upsert(self.entries, key, value);
        } else {
            lemma_lookup_upsert_other(self.entries, key, value, other);
        }
    }

    /// After a delete nothing is found under the key, and under every other key
    /// what was found before.
    pub proof fn lemma_get_after_delete(self, key: Seq<char>, other: Seq<char>)
        requires
            self.valid(),
        ensures
            self.delete(key).get(other) == if other == key {
                None
            } else {
                self.get(other)
            },
    {
        if other == key {
            lemma_lookup_without(self.entries, key);
        } else {
            lemma_lookup_without_other(self.entries, key, other);
        }
    }

    /// Adding to a key twice is adding the second value once: the collection
    /// then has exactly one entry for the key, and it holds the second value.
    pub proof fn lemma_add_twice(self, key: Seq<char>, first: DataView, second: DataView)
        requires
            self.valid(),
        ensures
            self.add(key, first).add(key, second) == self.add(key, second),
            self.add(key, first).add(key, second).get(key) == Some(second),
            self.add(key, first).add(key, second).entries.len() == self.add(
                key,
                first,
            ).entries.len(),
            ({
                let entries = self.add(key, first).add(key, second).entries;
                let at = lower_bound(entries, key);
                &&& 0 <= at < entries.len()
                &&& entries[at] == (EntryView { key, value: second })
                &&& forall|i: int|
                    0 <= i < entries.len() && (#[trigger] entries[i]).key == key ==> i == at
            }),
    {
        lemma_upsert_twice(self.entries, key, first, second);
        lemma_lookup_upsert(self.entries, key, second);
        lemma_lower_bound(self.entries, key);
    }

    /// Deleting a key that no entry has leaves the collection as it is.
    pub proof fn lemma_delete_absent(self, key: Seq<char>)
        requires
            forall|i: int| 0 <= i < self.entries.len() ==> (#[trigger] self.entries[i]).key != key,
        ensures
            self.delete(key) == self,
    {
        lemma_without_absent(self.entries, key);
    }

    /// Deleting a key and then adding a value under it gives what adding the
    /// value gives.
    pub proof fn lemma_modify_is_add(self, key: Seq<char>, value: DataView)
        requires
            self.valid(),
        ensures
            self.delete(key).add(key, value) == self.add(key, value),
            self.delete(key).accepts(key, value) == self.accepts(key, value),
    {
        lemma_without_then_upsert(self.entries, key, value);
        lemma_lookup_without(self.entries, key);
        lemma_lower_bound(self.entries, key);
    }
}

impl Format for CollectionView {
    /// The name fits, there are at most 255 entries, each is valid, and their
    /// keys ascend strictly.
    open spec fn valid(self) -> bool {
        text_fits(self.name) && run_valid(self.entries) && sorted(self.entries)
    }

    /// The name as a string on the wire, then the entries as a counted run.
    open spec fn encode(self) -> Seq<u8> {
        encode_text(self.name) + encode_run(self.entries)
    }

    /// Reads a collection; entries that are not in strictly ascending key order
    /// are refused.
    open spec fn decode(bytes: Seq<u8>) -> Option<(CollectionView, int)> {
        match decode_text(bytes) {
            None => None,
            Some((name, used)) => match decode_run::<EntryView>(bytes.skip(used)) {
                None => None,
                Some((entries, more)) => if sorted(entries) {
                    Some((CollectionView { name, entries }, used + more))
                } else {
                    None
                },
            },
        }
    }

    proof fn lemma_decode_encode(self, rest: Seq<u8>) {
        let bytes = self.encode() + rest;
        assert(bytes =~= encode_text(self.name) + (encode_run(self.entries) + rest));
        lemma_decode_text_of_encoded(self.name, encode_run(self.entries) + rest);
        assert(bytes.skip(encode_text(self.name).len() as int) =~= encode_run(self.entries)
            + rest);
        lemma_decode_run_encode_run(self.entries, rest);
    }

    proof fn lemma_encode_decode(bytes: Seq<u8>) {
        lemma_encode_text_of_decoded(bytes);
        let (_, used) = decode_text(bytes).unwrap();
        lemma_encode_run_decode_run::<EntryView>(bytes.skip(used));
    }
}

/// One entry as it is stored.
#[derive(Debug, PartialEq, Eq)]
struct Entry {
    key: String,
    value: Data,
}

impl Entry {
    /// A second entry with the same key and value.
    fn duplicate(&self) -> (copy: Entry)
        ensures
            copy.model() == self.model(),
    {
        Entry { key: self.key.clone(), value: self.value.clone() }
    }
}

impl Stored for Entry {
    type Model = EntryView;

    closed spec fn model(&self) -> EntryView {
        EntryView { key: self.key@, value: self.value@ }
    }

    fn write(&self, sink: &mut Vec<u8>) -> (result: Result<(), Error>) {
        written(write_string(sink, self.key.clone()))?;
        self.value.serialize(sink)
    }

    fn read(bytes: &[u8], pos: usize) -> (read: Option<(Entry, usize)>) {
        match read_text(bytes, pos) {
            None => None,
            Some((key, after_key)) => {
                assert(bytes@.skip(pos as int).skip(after_key - pos) =~= bytes@.skip(
                    after_key as int,
                ));
                match Data::parse(bytes, after_key) {
                    None => None,
                    Some((value, next)) => Some((Entry { key, value }, next)),
                }
            },
        }
    }
}

/// Whether the keys of `entries` ascend strictly.
fn ascending(entries: &Vec<Entry>) -> (yes: bool)
    ensures
        yes == sorted(models(entries@)),
{
    let ghost all = models(entries@);
    if entries.len() == 0 {
        return true;
    }
    let mut i: usize = 1;
    while i < entries.len()
        invariant
            1 <= i <= entries.len(),
            all == models(entries@),
            sorted(all.take(i as int)),
        decreases entries.len() - i,
    {
        let before = entries[i - 1].key.as_str().as_bytes();
        let here = entries[i].key.as_str().as_bytes();
        if !bytes_lt(before, here) {
            assert(!key_lt(all[i - 1].key, all[i as int].key));
            return false;
        }
        proof {
            let longer = all.take(i + 1);
            assert forall|a: int, b: int| 0 <= a < b < longer.len() implies key_lt(
                longer[a].key,
                longer[b].key,
            ) by {
                if a < i - 1 && b == i {
                    lemma_key_transitive(longer[a].key, longer[i - 1].key, longer[b].key);
                }
            }
        }
        i += 1;
    }
    proof {
        assert(all.take(i as int) =~= all);
    }
    true
}

/// A named set of entries. Every collection can be encoded: its name, its keys
/// and its strings have at most 255 bytes each, and it has at most 255 entries.
#[derive(Debug, PartialEq, Eq)]
pub struct Collection {
    name: String,
    entries: Vec<Entry>,
}

impl View for Collection {
    type V = CollectionView;

    closed spec fn view(&self) -> CollectionView {
        CollectionView { name: self.name@, entries: models(self.entries@) }
    }
}

impl Clone for Collection {
    fn clone(&self) -> (copy: Collection)
        ensures
            copy@ == self@,
    {
        proof {
            use_type_invariant(self);
        }
        let mut entries: Vec<Entry> = Vec::new();
        let mut i: usize = 0;
        while i < self.entries.len()
            invariant
                i <= self.entries.len(),
                models(entries@) == models(self.entries@).take(i as int),
            decreases self.entries.len() - i,
        {
            let ghost so_far = models(entries@);
            entries.push(self.entries[i].duplicate());
            assert(models(self.entries@).take(i + 1) =~= so_far.push(
                self.entries[i as int].model(),
            ));
            i += 1;
        }
        assert(models(self.entries@).take(i as int) =~= models(self.entries@));
        Collection { name: self.name.clone(), entries }
    }
}

impl Collection {
    /// What holds of every collection: its model is valid.
    #[verifier::type_invariant]
    pub open spec fn inv(&self) -> bool {
        self@.valid()
    }

    /// An empty collection with the given name, or [`Error::CapacityExceeded`]
    /// where the name has more than 255 bytes.
    pub fn new(name: String) -> (result: Result<Collection, Error>)
        ensures
            match result {
                Ok(collection) => text_fits(name@) && collection@ == CollectionView::empty(name@),
                Err(error) => !text_fits(name@) && error == Error::CapacityExceeded,
            },
    {
        if !fits(name.as_str()) {
            return Err(Error::CapacityExceeded);
        }
        let collection = Collection { name, entries: Vec::new() };
        assert(collection@.entries =~= Seq::empty());
        Ok(collection)
    }

    /// The collection's name.
    pub fn name(&self) -> (name: &String)
        ensures
            name@ == self@.name,
    {
        &self.name
    }

    /// The number of entries.
    pub fn len(&self) -> (count: usize)
        ensures
            count == self@.entries.len(),
            count <= 255,
    {
        proof {
            use_type_invariant(self);
        }
        self.entries.len()
    }

    /// The key and the value of the entry at `index` in key order, or `None`
    /// where the collection has no more than `index` entries.
    pub fn entry(&self, index: usize) -> (entry: Option<(&String, &Data)>)
        ensures
            match entry {
                Some((key, value)) => index < self@.entries.len() && self@.entries[index as int]
                    == (EntryView { key: key@, value: value@ }),
                None => index >= self@.entries.len(),
            },
    {
        if index < self.entries.len() {
            Some((&self.entries[index].key, &self.entries[index].value))
        } else {
            None
        }
    }

    /// The place of `key` among the entries, and whether the entry there has it.
    fn find(&self, key: &str) -> (place: (usize, bool))
        ensures
            ({
                let (index, hit) = place;
                &&& index == lower_bound(self@.entries, key@)
                &&& hit == found(self@.entries, key@)
                &&& index <= self@.entries.len()
            }),
    {
        let wanted = key.as_bytes();
        let mut index: usize = 0;
        while index < self.entries.len() && bytes_lt(
            self.entries[index].key.as_str().as_bytes(),
            wanted,
        )
            invariant
                index <= self.entries.len(),
                wanted@ == vstd::utf8::encode_utf8(key@),
                forall|j: int| 0 <= j < index ==> key_lt((#[trigger] self@.entries[j]).key, key@),
            decreases self.entries.len() - index,
        {
            index += 1;
        }
        proof {
            lemma_lower_bound_is(self@.entries, key@, index as int);
        }
        if index < self.entries.len() {
            let hit = !bytes_lt(wanted, self.entries[index].key.as_str().as_bytes());
            proof {
                lemma_key_trichotomy(key@, self@.entries[index as int].key);
            }
            (index, hit)
        } else {
            (index, false)
        }
    }

    /// Whether some entry has the key.
    pub fn contains_key(&self, key: &str) -> (present: bool)
        ensures
            present == self@.contains(key@),
    {
        let (_, hit) = self.find(key);
        hit
    }

    /// The value under `key`, or [`Error::NotFound`] where no entry has the key.
    pub fn get(&self, key: &str) -> (result: Result<&Data, Error>)
        ensures
            match result {
                Ok(data) => self@.get(key@) == Some(data@),
                Err(error) => self@.get(key@) is None && error == Error::NotFound(Missing::Key),
            },
    {
        let (index, hit) = self.find(key);
        if hit {
            Ok(&self.entries[index].value)
        } else {
            Err(Error::NotFound(Missing::Key))
        }
    }

    /// The string under `key`: [`Error::NotFound`] where no entry has the key,
    /// [`Error::TypeMismatch`] where the entry holds a number.
    pub fn get_string(&self, key: &str) -> (result: Result<&String, Error>)
        ensures
            match result {
                Ok(text) => self@.get(key@) == Some(DataView::String(text@)),
                Err(error) => match self@.get(key@) {
                    None => error == Error::NotFound(Missing::Key),
                    Some(value) => !(value is String) && error == Error::TypeMismatch,
                },
            },
    {
        match self.get(key) {
            Ok(data) => data.as_string(),
            Err(error) => Err(error),
        }
    }

    /// Puts `data` under `key`, in place of what was under it. Fails with
    /// [`Error::CapacityExceeded`], and changes nothing, where the key or a
    /// string value has more than 255 bytes, or where the key is new and the
    /// collection already has 255 entries.
    pub fn add_data(&mut self, key: String, data: Data) -> (result: Result<(), Error>)
        ensures
            match result {
                Ok(()) => old(self)@.accepts(key@, data@) && final(self)@ == old(self)@.add(
                    key@,
                    data@,
                ),
                Err(error) => !old(self)@.accepts(key@, data@) && error == Error::CapacityExceeded
                    && final(self)@ == old(self)@,
            },
    {
        proof {
            use_type_invariant(&*self);
        }
        if !fits(key.as_str()) || !data.is_valid() {
            return Err(Error::CapacityExceeded);
        }
        let (index, hit) = self.find(key.as_str());
        if !hit && self.entries.len() >= 255 {
            return Err(Error::CapacityExceeded);
        }
        let ghost before = self@;
        let mut entries: Vec<Entry> = Vec::new();
        std::mem::swap(&mut entries, &mut self.entries);
        if hit {
            entries.set(index, Entry { key, value: data });
        } else {
            entries.insert(index, Entry { key, value: data });
        }
        proof {
            before.lemma_add_valid(key@, data@);
            assert(models(entries@) =~= before.add(key@, data@).entries);
        }
        self.entries = entries;
        Ok(())
    }

    /// Removes the entry under `key`; does nothing where there is none.
    pub fn delete_data(&mut self, key: String)
        ensures
            final(self)@ == old(self)@.delete(key@),
    {
        proof {
            use_type_invariant(&*self);
        }
        let (index, hit) = self.find(key.as_str());
        if hit {
            let ghost before = self@;
            let mut entries: Vec<Entry> = Vec::new();
            std::mem::swap(&mut entries, &mut self.entries);
            entries.remove(index);
            proof {
                before.lemma_delete_valid(key@);
                assert(models(entries@) =~= before.delete(key@).entries);
            }
            self.entries = entries;
        }
    }

    /// Removes the entry under `key` and puts `data` under it. Fails, and changes
    /// nothing, exactly where [`Collection::add_data`] would.
    pub fn modify_data(&mut self, key: String, data: Data) -> (result: Result<(), Error>)
        ensures
            match result {
                Ok(()) => old(self)@.accepts(key@, data@) && final(self)@ == old(self)@.delete(
                    key@,
                ).add(key@, data@),
                Err(error) => !old(self)@.accepts(key@, data@) && error == Error::CapacityExceeded
                    && final(self)@ == old(self)@,
            },
    {
        proof {
            use_type_invariant(&*self);
            self@.lemma_modify_is_add(key@, data@);
        }
        if !fits(key.as_str()) || !data.is_valid() {
            return Err(Error::CapacityExceeded);
        }
        if !self.contains_key(key.as_str()) && self.len() >= 255 {
            return Err(Error::CapacityExceeded);
        }
        self.delete_data(key.clone());
        self.add_data(key, data)
    }

    /// Appends the collection's encoding to `sink`: its name, the number of its
    /// entries, and the entries in key order. Always succeeds: every collection
    /// can be encoded, and the sink takes what it is given.
    pub fn serialize(&self, sink: &mut Vec<u8>) -> (result: Result<(), Error>)
        ensures
            result is Ok,
            final(sink)@ == old(sink)@ + self@.encode(),
    {
        proof {
            use_type_invariant(self);
        }
        written(write_string(sink, self.name.clone()))?;
        write_run(&self.entries, sink)
    }

    /// Reads one collection at `pos`: the collection and the position after it,
    /// or `None` where the bytes at `pos` are not the encoding of a collection.
    pub fn parse(bytes: &[u8], pos: usize) -> (read: Option<(Collection, usize)>)
        ensures
            match read {
                Some((collection, next)) => pos <= next <= bytes@.len() && CollectionView::decode(
                    bytes@.skip(pos as int),
                ) == Some((collection@, next - pos)),
                None => pos > bytes@.len() || CollectionView::decode(bytes@.skip(pos as int))
                    is None,
            },
    {
        if pos > bytes.len() {
            return None;
        }
        let ghost tail = bytes@.skip(pos as int);
        let (name, after_name) = match read_text(bytes, pos) {
            Some(read) => read,
            None => {
                return None;
            },
        };
        assert(tail.skip(after_name - pos) =~= bytes@.skip(after_name as int));
        let (entries, next) = match read_run::<Entry>(bytes, after_name) {
            Some(read) => read,
            None => {
                return None;
            },
        };
        proof {
            lemma_encode_text_of_decoded(tail);
            lemma_encode_run_decode_run::<EntryView>(bytes@.skip(after_name as int));
        }
        if !ascending(&entries) {
            return None;
        }
        Some((Collection { name, entries }, next))
    }
}

impl Stored for Collection {
    type Model = CollectionView;

    open spec fn model(&self) -> CollectionView {
        self@
    }

    fn write(&self, sink: &mut Vec<u8>) -> (result: Result<(), Error>) {
        self.serialize(sink)
    }

    fn read(bytes: &[u8], pos: usize) -> (read: Option<(Collection, usize)>) {
        Collection::parse(bytes, pos)
    }
}

} // verus!
