//! A database: a name and a list of collections, addressed by their position.

use vstd::prelude::*;

use crate::collection::{Collection, CollectionView};
use crate::data::Data;
use crate::error::{Error, Missing};
use crate::format::{
    decode_run, encode_run, lemma_decode_run_encode_run, lemma_encode_run_decode_run, run_valid,
    Format,
};
use crate::sink::{write_string, written};
use crate::stored::{models, read_run, write_run, Stored};
use crate::wire::{
    decode_text, encode_text, fits, lemma_decode_text_of_encoded, lemma_encode_text_of_decoded,
    read_text, text_fits,
};

verus! {

/// The model of a [`Database`]: its name and its collections in the order in
/// which they were added.
pub struct DatabaseView {
    pub name: Seq<char>,
    pub collections: Seq<CollectionView>,
}

impl DatabaseView {
    /// The database with `name` and no collections.
    pub open spec fn empty(name: Seq<char>) -> DatabaseView {
        DatabaseView { name, collections: Seq::empty() }
    }

    /// A collection stands at `index`.
    pub open spec fn has(self, index: int) -> bool {
        0 <= index < self.collections.len()
    }

    /// The database with `collection` behind the others.
    pub open spec fn push(self, collection: CollectionView) -> DatabaseView {
        DatabaseView { name: self.name, collections: self.collections.push(collection) }
    }

    /// The database with `collection` in place of the one at `index`.
    pub open spec fn replace(self, index: int, collection: CollectionView) -> DatabaseView {
        DatabaseView { name: self.name, collections: self.collections.update(index, collection) }
    }
}

impl Format for DatabaseView {
    /// The name fits, there are at most 255 collections, and each is valid.
    open spec fn valid(self) -> bool {
        text_fits(self.name) && run_valid(self.collections)
    }

    /// The name as a string on the wire, then the collections as a counted run.
    open spec fn encode(self) -> Seq<u8> {
        encode_text(self.name) + encode_run(self.collections)
    }

    open spec fn decode(bytes: Seq<u8>) -> Option<(DatabaseView, int)> {
        match decode_text(bytes) {
            None => None,
            Some((name, used)) => match decode_run::<CollectionView>(bytes.skip(used)) {
                None => None,
                Some((collections, more)) => Some(
                    (DatabaseView { name, collections }, used + more),
                ),
            },
        }
    }

    proof fn lemma_decode_encode(self, rest: Seq<u8>) {
        let bytes = self.encode() + rest;
        assert(bytes =~= encode_text(self.name) + (encode_run(self.collections) + rest));
        lemma_decode_text_of_encoded(self.name, encode_run(self.collections) + rest);
        assert(bytes.skip(encode_text(self.name).len() as int) =~= encode_run(self.collections)
            + rest);
        lemma_decode_run_encode_run(self.collections, rest);
    }

    proof fn lemma_encode_decode(bytes: Seq<u8>) {
        lemma_encode_text_of_decoded(bytes);
        let (_, used) = decode_text(bytes).unwrap();
        lemma_encode_run_decode_run::<CollectionView>(bytes.skip(used));
    }
}

/// A named list of collections. Every database can be encoded: its name has at
/// most 255 bytes and it has at most 255 collections.
#[derive(Debug, PartialEq, Eq)]
pub struct Database {
    name: String,
    collections: Vec<Collection>,
}

impl View for Database {
    type V = DatabaseView;

    closed spec fn view(&self) -> DatabaseView {
        DatabaseView { name: self.name@, collections: models(self.collections@) }
    }
}

impl Clone for Database {
    fn clone(&self) -> (copy: Database)
        ensures
            copy@ == self@,
    {
        proof {
            use_type_invariant(self);
        }
        let mut collections: Vec<Collection> = Vec::new();
        let mut i: usize = 0;
        while i < self.collections.len()
            invariant
                i <= self.collections.len(),
                models(collections@) == models(self.collections@).take(i as int),
            decreases self.collections.len() - i,
        {
            let ghost so_far = models(collections@);
            collections.push(self.collections[i].clone());
            assert(models(self.collections@).take(i + 1) =~= so_far.push(
                self.collections[i as int]@,
            ));
            i += 1;
        }
        assert(models(self.collections@).take(i as int) =~= models(self.collections@));
        Database { name: self.name.clone(), collections }
    }
}

impl Database {
    /// What holds of every database: its model is valid.
    #[verifier::type_invariant]
    pub open spec fn inv(&self) -> bool {
        self@.valid()
    }

    /// A database with the given name and no collections, or
    /// [`Error::CapacityExceeded`] where the name has more than 255 bytes.
    pub fn new(name: String) -> (result: Result<Database, Error>)
        ensures
            match result {
                Ok(database) => text_fits(name@) && database@ == DatabaseView::empty(name@),
                Err(error) => !text_fits(name@) && error == Error::CapacityExceeded,
            },
    {
        if !fits(name.as_str()) {
            return Err(Error::CapacityExceeded);
        }
        let database = Database { name, collections: Vec::new() };
        assert(database@.collections =~= Seq::empty());
        Ok(database)
    }

    /// The database's name.
    pub fn name(&self) -> (name: &String)
        ensures
            name@ == self@.name,
    {
        &self.name
    }

    /// The number of collections.
    pub fn len(&self) -> (count: usize)
        ensures
            count == self@.collections.len(),
            count <= 255,
    {
        proof {
            use_type_invariant(self);
        }
        self.collections.len()
    }

    /// The collection at `index`, or [`Error::NotFound`] where there is none.
    pub fn collection(&self, index: u8) -> (result: Result<&Collection, Error>)
        ensures
            match result {
                Ok(collection) => self@.has(index as int) && collection@
                    == self@.collections[index as int],
                Err(error) => !self@.has(index as int) && error == Error::NotFound(
                    Missing::Collection,
                ),
            },
    {
        if (index as usize) < self.collections.len() {
            Ok(&self.collections[index as usize])
        } else {
            Err(Error::NotFound(Missing::Collection))
        }
    }

    /// Appends a collection. Fails with [`Error::CapacityExceeded`], and changes
    /// nothing, where the database already has 255 collections.
    pub fn add_collection(&mut self, collection: Collection) -> (result: Result<(), Error>)
        ensures
            match result {
                Ok(()) => old(self)@.collections.len() < 255 && final(self)@ == old(self)@.push(
                    collection@,
                ),
                Err(error) => old(self)@.collections.len() >= 255 && error
                    == Error::CapacityExceeded && final(self)@ == old(self)@,
            },
    {
        proof {
            use_type_invariant(&*self);
            use_type_invariant(&collection);
        }
        if self.collections.len() >= 255 {
            return Err(Error::CapacityExceeded);
        }
        let ghost before = self@;
        let mut collections: Vec<Collection> = Vec::new();
        std::mem::swap(&mut collections, &mut self.collections);
        collections.push(collection);
        assert(models(collections@) =~= before.collections.push(collection@));
        self.collections = collections;
        Ok(())
    }

    /// Puts `data` under `key` in the collection at `index`, as
    /// [`Collection::add_data`] does. Fails, and changes nothing, with
    /// [`Error::NotFound`] where no collection stands at `index`, and with
    /// [`Error::CapacityExceeded`] where the collection does not accept the entry.
    pub fn add_data(&mut self, index: u8, key: String, data: Data) -> (result: Result<(), Error>)
        ensures
            match result {
                Ok(()) => {
                    &&& old(self)@.has(index as int)
                    &&& old(self)@.collections[index as int].accepts(key@, data@)
                    &&& final(self)@ == old(self)@.replace(
                        index as int,
                        old(self)@.collections[index as int].add(key@, data@),
                    )
                },
                Err(error) => {
                    &&& final(self)@ == old(self)@
                    &&& if old(self)@.has(index as int) {
                        !old(self)@.collections[index as int].accepts(key@, data@) && error
                            == Error::CapacityExceeded
                    } else {
                        error == Error::NotFound(Missing::Collection)
                    }
                },
            },
    {
        proof {
            use_type_invariant(&*self);
        }
        let at = index as usize;
        if at >= self.collections.len() {
            return Err(Error::NotFound(Missing::Collection));
        }
        let ghost before = self@;
        let mut collections: Vec<Collection> = Vec::new();
        std::mem::swap(&mut collections, &mut self.collections);
        let result = collections[at].add_data(key, data);
        let target = &collections[at];
        proof {
            use_type_invariant(target);
            assert(models(collections@) =~= before.collections.update(at as int, target@));
            assert(before.collections.update(at as int, before.collections[at as int])
                =~= before.collections);
        }
        self.collections = collections;
        result
    }

    /// Removes the entry under `key` from the collection at `index`, as
    /// [`Collection::delete_data`] does. Fails with [`Error::NotFound`], and
    /// changes nothing, where no collection stands at `index`.
    pub fn delete_data(&mut self, index: u8, key: String) -> (result: Result<(), Error>)
        ensures
            match result {
                Ok(()) => old(self)@.has(index as int) && final(self)@ == old(self)@.replace(
                    index as int,
                    old(self)@.collections[index as int].delete(key@),
                ),
                Err(error) => !old(self)@.has(index as int) && error == Error::NotFound(
                    Missing::Collection,
                ) && final(self)@ == old(self)@,
            },
    {
        proof {
            use_type_invariant(&*self);
        }
        let at = index as usize;
        if at >= self.collections.len() {
            return Err(Error::NotFound(Missing::Collection));
        }
        let ghost before = self@;
        let mut collections: Vec<Collection> = Vec::new();
        std::mem::swap(&mut collections, &mut self.collections);
        collections[at].delete_data(key);
        let target = &collections[at];
        proof {
            use_type_invariant(target);
            assert(models(collections@) =~= before.collections.update(at as int, target@));
        }
        self.collections = collections;
        Ok(())
    }

    /// Replaces what is under `key` in the collection at `index`, as
    /// [`Collection::modify_data`] does. Fails, and changes nothing, exactly
    /// where [`Database::add_data`] would.
    pub fn modify_data(&mut self, index: u8, key: String, data: Data) -> (result: Result<
        (),
        Error,
    >)
        ensures
            match result {
                Ok(()) => {
                    &&& old(self)@.has(index as int)
                    &&& old(self)@.collections[index as int].accepts(key@, data@)
                    &&& final(self)@ == old(self)@.replace(
                        index as int,
                        old(self)@.collections[index as int].delete(key@).add(key@, data@),
                    )
                },
                Err(error) => {
                    &&& final(self)@ == old(self)@
                    &&& if old(self)@.has(index as int) {
                        !old(self)@.collections[index as int].accepts(key@, data@) && error
                            == Error::CapacityExceeded
                    } else {
                        error == Error::NotFound(Missing::Collection)
                    }
                },
            },
    {
        proof {
            use_type_invariant(&*self);
        }
        let at = index as usize;
        if at >= self.collections.len() {
            return Err(Error::NotFound(Missing::Collection));
        }
        let ghost before = self@;
        let mut collections: Vec<Collection> = Vec::new();
        std::mem::swap(&mut collections, &mut self.collections);
        let result = collections[at].modify_data(key, data);
        let target = &collections[at];
        proof {
            use_type_invariant(target);
            assert(models(collections@) =~= before.collections.update(at as int, target@));
            assert(before.collections.update(at as int, before.collections[at as int])
                =~= before.collections);
        }
        self.collections = collections;
        result
    }

    /// Appends the database's encoding to `sink`: its name, the number of its
    /// collections, and the collections in their order. Always succeeds: every
    /// database can be encoded, and the sink takes what it is given.
    pub fn serialize(&self, sink: &mut Vec<u8>) -> (result: Result<(), Error>)
        ensures
            result is Ok,
            final(sink)@ == old(sink)@ + self@.encode(),
    {
        proof {
            use_type_invariant(self);
        }
        written(write_string(sink, self.name.clone()))?;
        write_run(&self.collections, sink)
    }

    /// Reads one database at `pos`: the database and the position after it, or
    /// `None` where the bytes at `pos` are not the encoding of a database.
    pub fn parse(bytes: &[u8], pos: usize) -> (read: Option<(Database, usize)>)
        ensures
            match read {
                Some((database, next)) => pos <= next <= bytes@.len() && DatabaseView::decode(
                    bytes@.skip(pos as int),
                ) == Some((database@, next - pos)),
                None => pos > bytes@.len() || DatabaseView::decode(bytes@.skip(pos as int))
                    is None,
            },
    {
        if pos > bytes.len() {
            return None;
        }
        let ghost tail = bytes@.skip(pos as int);
        let (name, after_name) = match read_text(bytes, pos) {
            Some(read) => read,
            None => {
                return None;
            },
        };
        assert(tail.skip(after_name - pos) =~= bytes@.skip(after_name as int));
        let (collections, next) = match read_run::<Collection>(bytes, after_name) {
            Some(read) => read,
            None => {
                return None;
            },
        };
        proof {
            lemma_encode_text_of_decoded(tail);
            lemma_encode_run_decode_run::<CollectionView>(bytes@.skip(after_name as int));
        }
        Some((Database { name, collections }, next))
    }
}

impl Stored for Database {
    type Model = DatabaseView;

    open spec fn model(&self) -> DatabaseView {
        self@
    }

    fn write(&self, sink: &mut Vec<u8>) -> (result: Result<(), Error>) {
        self.serialize(sink)
    }

    fn read(bytes: &[u8], pos: usize) -> (read: Option<(Database, usize)>) {
        Database::parse(bytes, pos)
    }
}

} // verus!
