//! The two requests that a front end passes on: read the string at an address,
//! and put a string there. Each answers with a line of text.

use vstd::prelude::*;

use crate::data::{Data, DataView};
use crate::error::{Error, Missing};
use crate::format::Format;
use crate::world::{World, WorldView};

verus! {

/// The world after a string is put under `key` at an address, or the reason why
/// it cannot be: the first of database and collection that is missing, or that
/// the collection does not accept the entry.
pub open spec fn stored(
    world: WorldView,
    database: int,
    collection: int,
    key: Seq<char>,
    value: Seq<char>,
) -> Result<WorldView, Error> {
    if !world.has(database) {
        Err(Error::NotFound(Missing::Database))
    } else if !world.databases[database].has(collection) {
        Err(Error::NotFound(Missing::Collection))
    } else {
        let target = world.databases[database].collections[collection];
        if !target.accepts(key, DataView::String(value)) {
            Err(Error::CapacityExceeded)
        } else {
            Ok(
                world.replace(
                    database,
                    world.databases[database].replace(
                        collection,
                        target.add(key, DataView::String(value)),
                    ),
                ),
            )
        }
    }
}

/// The answer to a read: the string at the address, or the message of the error
/// that [`World::get_string`] gives.
pub open spec fn get_reply(world: WorldView, database: int, collection: int, key: Seq<char>) -> Seq<
    char,
> {
    match world.get_string(database, collection, key) {
        Ok(text) => text,
        Err(error) => error.spec_message(),
    }
}

/// The answer to a write: a confirmation, or the message of the error that kept
/// the string out.
pub open spec fn set_reply(
    world: WorldView,
    database: int,
    collection: int,
    key: Seq<char>,
    value: Seq<char>,
) -> Seq<char> {
    match stored(world, database, collection, key, value) {
        Ok(_) => "The data was defined"@,
        Err(error) => error.spec_message(),
    }
}

/// Answers a read of the string under `key` in the collection at `collection` of
/// the database at `database`.
pub fn get_data(world: &World, database: u8, collection: u8, key: &str) -> (reply: String)
    ensures
        reply@ == get_reply(world@, database as int, collection as int, key@),
{
    match world.get_string(database, collection, key) {
        Ok(text) => text.clone(),
        Err(error) => error.message(),
    }
}

/// Puts the string `value` under `key` at the given address, in place of what
/// was under it, and answers with a confirmation. Where that cannot be done the
/// world stays as it is and the answer is the error's message.
pub fn set_data(world: &mut World, database: u8, collection: u8, key: String, value: String) -> (reply:
    String)
    ensures
        reply@ == set_reply(old(world)@, database as int, collection as int, key@, value@),
        final(world)@ == match stored(
            old(world)@,
            database as int,
            collection as int,
            key@,
            value@,
        ) {
            Ok(after) => after,
            Err(_) => old(world)@,
        },
{
    proof {
        use_type_invariant(&*world);
    }
    let present = match world.collection(database, collection) {
        Ok(target) => target.contains_key(key.as_str()),
        Err(error) => {
            return error.message();
        },
    };
    proof {
        let target = world@.databases[database as int].collections[collection as int];
        target.lemma_modify_is_add(key@, DataView::String(value@));
    }
    let result = if present {
        world.modify_data(database, collection, key, Data::String(value))
    } else {
        world.add_data(database, collection, key, Data::String(value))
    };
    match result {
        Ok(()) => "The data was defined".to_string(),
        Err(error) => error.message(),
    }
}

} // verus!
