//! The world: the root of the tree, a list of at most 255 databases, and the
//! two ends of the wire format.

use vstd::prelude::*;

use crate::collection::Collection;
use crate::data::{Data, DataView};
use crate::database::{Database, DatabaseView};
use crate::error::{Error, Missing};
use crate::format::{
    decode_run, encode_run, lemma_decode_run_encode_run, lemma_encode_run_decode_run, run_valid,
    Format,
};
use crate::stored::{models, read_run, write_run};

verus! {

/// The model of a [`World`]: its databases in the order in which they were added.
pub struct WorldView {
    pub databases: Seq<DatabaseView>,
}

impl WorldView {
    /// The world without databases.
    pub open spec fn empty() -> WorldView {
        WorldView { databases: Seq::empty() }
    }

    /// A database stands at `index`.
    pub open spec fn has(self, index: int) -> bool {
        0 <= index < self.databases.len()
    }

    /// The world with `database` behind the others.
    pub open spec fn push(self, database: DatabaseView) -> WorldView {
        WorldView { databases: self.databases.push(database) }
    }

    /// The world with `database` in place of the one at `index`.
    pub open spec fn replace(self, index: int, database: DatabaseView) -> WorldView {
        WorldView { databases: self.databases.update(index, database) }
    }

    /// The string that a reader gets at an address, or the reason why there is
    /// none: the first of database, collection and key that is missing, or that
    /// the value is not a string.
    pub open spec fn get_string(self, database: int, collection: int, key: Seq<char>) -> Result<
        Seq<char>,
        Error,
    > {
        if !self.has(database) {
            Err(Error::NotFound(Missing::Database))
        } else if !self.databases[database].has(collection) {
            Err(Error::NotFound(Missing::Collection))
        } else {
            match self.databases[database].collections[collection].get(key) {
                None => Err(Error::NotFound(Missing::Key)),
                Some(DataView::String(text)) => Ok(text),
                Some(_) => Err(Error::TypeMismatch),
            }
        }
    }

    /// The world that `bytes` encode: they must hold one world and nothing after it.
    pub open spec fn from_bytes(bytes: Seq<u8>) -> Option<WorldView> {
        match WorldView::decode(bytes) {
            Some((world, used)) => if used == bytes.len() {
                Some(world)
            } else {
                None
            },
            None => None,
        }
    }

    /// Decoding the encoding of a valid world gives the world back.
    pub proof fn lemma_round_trip(self)
        requires
            self.valid(),
        ensures
            WorldView::from_bytes(self.encode()) == Some(self),
    {
        self.lemma_decode_encode(Seq::empty());
    }

    /// What decodes to a world is the encoding of that world, and the world is
    /// valid: no two byte strings decode to the same world.
    pub proof fn lemma_decoded_is_encoded(bytes: Seq<u8>)
        requires
            WorldView::from_bytes(bytes) is Some,
        ensures
            WorldView::from_bytes(bytes).unwrap().valid(),
            WorldView::from_bytes(bytes).unwrap().encode() == bytes,
    {
        WorldView::lemma_encode_decode(bytes);
    }

    /// Two valid worlds with the same encoding are the same world.
    pub proof fn lemma_encode_injective(self, other: WorldView)
        requires
            self.valid(),
            other.valid(),
            self.encode() == other.encode(),
        ensures
            self == other,
    {
        self.lemma_round_trip();
        other.lemma_round_trip();
    }
}

impl Format for WorldView {
    /// There are at most 255 databases, and each is valid.
    open spec fn valid(self) -> bool {
        run_valid(self.databases)
    }

    /// The databases as a counted run.
    open spec fn encode(self) -> Seq<u8> {
        encode_run(self.databases)
    }

    open spec fn decode(bytes: Seq<u8>) -> Option<(WorldView, int)> {
        match decode_run::<DatabaseView>(bytes) {
            None => None,
            Some((databases, used)) => Some((WorldView { databases }, used)),
        }
    }

    proof fn lemma_decode_encode(self, rest: Seq<u8>) {
        lemma_decode_run_encode_run(self.databases, rest);
    }

    proof fn lemma_encode_decode(bytes: Seq<u8>) {
        lemma_encode_run_decode_run::<DatabaseView>(bytes);
    }
}

/// The root of the tree: a list of databases. Every world can be encoded: it has
/// at most 255 databases.
#[derive(Debug, PartialEq, Eq)]
pub struct World {
    databases: Vec<Database>,
}

impl View for World {
    type V = WorldView;

    closed spec fn view(&self) -> WorldView {
        WorldView { databases: models(self.databases@) }
    }
}

impl Clone for World {
    fn clone(&self) -> (copy: World)
        ensures
            copy@ == self@,
    {
        proof {
            use_type_invariant(self);
        }
        let mut databases: Vec<Database> = Vec::new();
        let mut i: usize = 0;
        while i < self.databases.len()
            invariant
                i <= self.databases.len(),
                models(databases@) == models(self.databases@).take(i as int),
            decreases self.databases.len() - i,
        {
            let ghost so_far = models(databases@);
            databases.push(self.databases[i].clone());
            assert(models(self.databases@).take(i + 1) =~= so_far.push(
                self.databases[i as int]@,
            ));
            i += 1;
        }
        assert(models(self.databases@).take(i as int) =~= models(self.databases@));
        World { databases }
    }
}

impl Default for World {
    fn default() -> (world: World)
        ensures
            world@ == WorldView::empty(),
    {
        World::new()
    }
}

impl World {
    /// What holds of every world: its model is valid.
    #[verifier::type_invariant]
    pub open spec fn inv(&self) -> bool {
        self@.valid()
    }

    /// The world without databases.
    pub fn new() -> (world: World)
        ensures
            world@ == WorldView::empty(),
    {
        let world = World { databases: Vec::new() };
        assert(world@.databases =~= Seq::empty());
        world
    }

    /// The number of databases.
    pub fn len(&self) -> (count: usize)
        ensures
            count == self@.databases.len(),
            count <= 255,
    {
        proof {
            use_type_invariant(self);
        }
        self.databases.len()
    }

    /// The database at `index`, or [`Error::NotFound`] where there is none.
    pub fn database(&self, index: u8) -> (result: Result<&Database, Error>)
        ensures
            match result {
                Ok(database) => self@.has(index as int) && database@
                    == self@.databases[index as int],
                Err(error) => !self@.has(index as int) && error == Error::NotFound(
                    Missing::Database,
                ),
            },
    {
        if (index as usize) < self.databases.len() {
            Ok(&self.databases[index as usize])
        } else {
            Err(Error::NotFound(Missing::Database))
        }
    }

    /// The collection at `collection` in the database at `database`, or
    /// [`Error::NotFound`] with the first of the two that is missing.
    pub fn collection(&self, database: u8, collection: u8) -> (result: Result<&Collection, Error>)
        ensures
            match result {
                Ok(found) => {
                    &&& self@.has(database as int)
                    &&& self@.databases[database as int].has(collection as int)
                    &&& found@ == self@.databases[database as int].collections[collection as int]
                },
                Err(error) => if !self@.has(database as int) {
                    error == Error::NotFound(Missing::Database)
                } else {
                    !self@.databases[database as int].has(collection as int) && error
                        == Error::NotFound(Missing::Collection)
                },
            },
    {
        self.database(database)?.collection(collection)
    }

    /// The string under `key` at the given address. Fails with
    /// [`Error::NotFound`] for the first of database, collection and key that is
    /// missing, and with [`Error::TypeMismatch`] where the value is a number.
    pub fn get_string(&self, database: u8, collection: u8, key: &str) -> (result: Result<
        &String,
        Error,
    >)
        ensures
            match result {
                Ok(text) => self@.get_string(database as int, collection as int, key@) == Ok::<
                    Seq<char>,
                    Error,
                >(text@),
                Err(error) => self@.get_string(database as int, collection as int, key@) == Err::<
                    Seq<char>,
                    Error,
                >(error),
            },
    {
        self.collection(database, collection)?.get_string(key)
    }

    /// Appends a database. Fails with [`Error::CapacityExceeded`], and changes
    /// nothing, where the world already has 255 databases.
    pub fn add_database(&mut self, database: Database) -> (result: Result<(), Error>)
        ensures
            match result {
                Ok(()) => old(self)@.databases.len() < 255 && final(self)@ == old(self)@.push(
                    database@,
                ),
                Err(error) => old(self)@.databases.len() >= 255 && error
                    == Error::CapacityExceeded && final(self)@ == old(self)@,
            },
    {
        proof {
            use_type_invariant(&*self);
            use_type_invariant(&database);
        }
        if self.databases.len() >= 255 {
            return Err(Error::CapacityExceeded);
        }
        let ghost before = self@;
        let mut databases: Vec<Database> = Vec::new();
        std::mem::swap(&mut databases, &mut self.databases);
        databases.push(database);
        assert(models(databases@) =~= before.databases.push(database@));
        self.databases = databases;
        Ok(())
    }

    /// Appends a collection to the database at `database`, as
    /// [`Database::add_collection`] does. Fails, and changes nothing, with
    /// [`Error::NotFound`] where no database stands there, and with
    /// [`Error::CapacityExceeded`] where the database already has 255 collections.
    pub fn add_collection(&mut self, database: u8, collection: Collection) -> (result: Result<
        (),
        Error,
    >)
        ensures
            match result {
                Ok(()) => {
                    &&& old(self)@.has(database as int)
                    &&& old(self)@.databases[database as int].collections.len() < 255
                    &&& final(self)@ == old(self)@.replace(
                        database as int,
                        old(self)@.databases[database as int].push(collection@),
                    )
                },
                Err(error) => {
                    &&& final(self)@ == old(self)@
                    &&& if old(self)@.has(database as int) {
                        old(self)@.databases[database as int].collections.len() >= 255 && error
                            == Error::CapacityExceeded
                    } else {
                        error == Error::NotFound(Missing::Database)
                    }
                },
            },
    {
        proof {
            use_type_invariant(&*self);
        }
        let at = database as usize;
        if at >= self.databases.len() {
            return Err(Error::NotFound(Missing::Database));
        }
        let ghost before = self@;
        let mut databases: Vec<Database> = Vec::new();
        std::mem::swap(&mut databases, &mut self.databases);
        let result = databases[at].add_collection(collection);
        let target = &databases[at];
        proof {
            use_type_invariant(target);
            assert(models(databases@) =~= before.databases.update(at as int, target@));
            assert(before.databases.update(at as int, before.databases[at as int])
                =~= before.databases);
        }
        self.databases = databases;
        result
    }

    /// Puts `data` under `key` at the given address, as [`Database::add_data`]
    /// does. Fails, and changes nothing, with [`Error::NotFound`] for the first
    /// of database and collection that is missing, and with
    /// [`Error::CapacityExceeded`] where the collection does not accept the entry.
    pub fn add_data(&mut self, database: u8, collection: u8, key: String, data: Data) -> (result:
        Result<(), Error>)
        ensures
            match result {
                Ok(()) => {
                    &&& old(self)@.has(database as int)
                    &&& old(self)@.databases[database as int].has(collection as int)
                    &&& old(self)@.databases[database as int].collections[collection as int].accepts(
                        key@,
                        data@,
                    )
                    &&& final(self)@ == old(self)@.replace(
                        database as int,
                        old(self)@.databases[database as int].replace(
                            collection as int,
                            old(
                                self,
                            )@.databases[database as int].collections[collection as int].add(
                                key@,
                                data@,
                            ),
                        ),
                    )
                },
                Err(error) => {
                    &&& final(self)@ == old(self)@
                    &&& if !old(self)@.has(database as int) {
                        error == Error::NotFound(Missing::Database)
                    } else if !old(self)@.databases[database as int].has(collection as int) {
                        error == Error::NotFound(Missing::Collection)
                    } else {
                        !old(
                            self,
                        )@.databases[database as int].collections[collection as int].accepts(
                            key@,
                            data@,
                        ) && error == Error::CapacityExceeded
                    }
                },
            },
    {
        proof {
            use_type_invariant(&*self);
        }
        let at = database as usize;
        if at >= self.databases.len() {
            return Err(Error::NotFound(Missing::Database));
        }
        let ghost before = self@;
        let mut databases: Vec<Database> = Vec::new();
        std::mem::swap(&mut databases, &mut self.databases);
        let result = databases[at].add_data(collection, key, data);
        let target = &databases[at];
        proof {
            use_type_invariant(target);
            assert(models(databases@) =~= before.databases.update(at as int, target@));
            assert(before.databases.update(at as int, before.databases[at as int])
                =~= before.databases);
        }
        self.databases = databases;
        result
    }

    /// Removes the entry under `key` at the given address, as
    /// [`Database::delete_data`] does. Fails with [`Error::NotFound`], and changes
    /// nothing, for the first of database and collection that is missing.
    pub fn delete_data(&mut self, database: u8, collection: u8, key: String) -> (result: Result<
        (),
        Error,
    >)
        ensures
            match result {
                Ok(()) => {
                    &&& old(self)@.has(database as int)
                    &&& old(self)@.databases[database as int].has(collection as int)
                    &&& final(self)@ == old(self)@.replace(
                        database as int,
                        old(self)@.databases[database as int].replace(
                            collection as int,
                            old(
                                self,
                            )@.databases[database as int].collections[collection as int].delete(
                                key@,
                            ),
                        ),
                    )
                },
                Err(error) => {
                    &&& final(self)@ == old(self)@
                    &&& if !old(self)@.has(database as int) {
                        error == Error::NotFound(Missing::Database)
                    } else {
                        !old(self)@.databases[database as int].has(collection as int) && error
                            == Error::NotFound(Missing::Collection)
                    }
                },
            },
    {
        proof {
            use_type_invariant(&*self);
        }
        let at = database as usize;
        if at >= self.databases.len() {
            return Err(Error::NotFound(Missing::Database));
        }
        let ghost before = self@;
        let mut databases: Vec<Database> = Vec::new();
        std::mem::swap(&mut databases, &mut self.databases);
        let result = databases[at].delete_data(collection, key);
        let target = &databases[at];
        proof {
            use_type_invariant(target);
            assert(models(databases@) =~= before.databases.update(at as int, target@));
            assert(before.databases.update(at as int, before.databases[at as int])
                =~= before.databases);
        }
        self.databases = databases;
        result
    }

    /// Replaces what is under `key` at the given address, as
    /// [`Database::modify_data`] does. Fails, and changes nothing, exactly where
    /// [`World::add_data`] would.
    pub fn modify_data(&mut self, database: u8, collection: u8, key: String, data: Data) -> (result:
        Result<(), Error>)
        ensures
            match result {
                Ok(()) => {
                    &&& old(self)@.has(database as int)
                    &&& old(self)@.databases[database as int].has(collection as int)
                    &&& old(self)@.databases[database as int].collections[collection as int].accepts(
                        key@,
                        data@,
                    )
                    &&& final(self)@ == old(self)@.replace(
                        database as int,
                        old(self)@.databases[database as int].replace(
                            collection as int,
                            old(
                                self,
                            )@.databases[database as int].collections[collection as int].delete(
                                key@,
                            ).add(key@, data@),
                        ),
                    )
                },
                Err(error) => {
                    &&& final(self)@ == old(self)@
                    &&& if !old(self)@.has(database as int) {
                        error == Error::NotFound(Missing::Database)
                    } else if !old(self)@.databases[database as int].has(collection as int) {
                        error == Error::NotFound(Missing::Collection)
                    } else {
                        !old(
                            self,
                        )@.databases[database as int].collections[collection as int].accepts(
                            key@,
                            data@,
                        ) && error == Error::CapacityExceeded
                    }
                },
            },
    {
        proof {
            use_type_invariant(&*self);
        }
        let at = database as usize;
        if at >= self.databases.len() {
            return Err(Error::NotFound(Missing::Database));
        }
        let ghost before = self@;
        let mut databases: Vec<Database> = Vec::new();
        std::mem::swap(&mut databases, &mut self.databases);
        let result = databases[at].modify_data(collection, key, data);
        let target = &databases[at];
        proof {
            use_type_invariant(target);
            assert(models(databases@) =~= before.databases.update(at as int, target@));
            assert(before.databases.update(at as int, before.databases[at as int])
                =~= before.databases);
        }
        self.databases = databases;
        result
    }

    /// Appends the world's encoding to `sink`: the number of its databases, then
    /// the databases in their order. Always succeeds: every world can be encoded,
    /// and the sink takes what it is given.
    pub fn serialize(&self, sink: &mut Vec<u8>) -> (result: Result<(), Error>)
        ensures
            result is Ok,
            final(sink)@ == old(sink)@ + self@.encode(),
    {
        proof {
            use_type_invariant(self);
        }
        write_run(&self.databases, sink)
    }

    /// The world's encoding in a buffer of its own. Always succeeds.
    pub fn to_bytes(&self) -> (result: Result<Vec<u8>, Error>)
        ensures
            result matches Ok(bytes) && bytes@ == self@.encode(),
    {
        let mut sink: Vec<u8> = Vec::new();
        match self.serialize(&mut sink) {
            Ok(()) => Ok(sink),
            Err(error) => Err(error),
        }
    }

    /// Reads a world from `bytes`, which must hold the encoding of one world and
    /// nothing else. Fails with [`Error::MalformedStream`] on every other input:
    /// bytes that end early, an unknown tag, a length or a count that promises
    /// more than there is, a string that is not UTF-8, keys that do not ascend,
    /// bytes left over.
    pub fn deserialize(bytes: &[u8]) -> (result: Result<World, Error>)
        ensures
            match result {
                Ok(world) => WorldView::from_bytes(bytes@) == Some(world@) && world@.encode()
                    == bytes@,
                Err(error) => {
                    &&& error == Error::MalformedStream
                    &&& WorldView::from_bytes(bytes@) is None
                    &&& forall|world: WorldView|
                        world.valid() ==> #[trigger] world.encode() != bytes@
                },
            },
    {
        assert(bytes@.skip(0) =~= bytes@);
        match read_run::<Database>(bytes, 0) {
            Some((databases, next)) if next == bytes.len() => {
                proof {
                    lemma_encode_run_decode_run::<DatabaseView>(bytes@);
                    WorldView::lemma_decoded_is_encoded(bytes@);
                }
                Ok(World { databases })
            },
            _ => {
                proof {
                    assert forall|world: WorldView| world.valid() implies #[trigger] world.encode()
                        != bytes@ by {
                        world.lemma_round_trip();
                    }
                }
                Err(Error::MalformedStream)
            },
        }
    }
}

} // verus!
