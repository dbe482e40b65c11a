use database::{Collection, Data, Database, Error, Missing, World};

fn named(name: &str) -> Database {
    Database::new(name.to_string()).unwrap()
}

fn small_world() -> World {
    let mut collection = Collection::new("test".to_string()).unwrap();
    collection.add_data("a".to_string(), Data::String("b".to_string())).unwrap();
    collection.add_data("n".to_string(), Data::U64(7)).unwrap();
    let mut database = named("hello");
    database.add_collection(collection).unwrap();
    let mut world = World::default();
    world.add_database(database).unwrap();
    world
}

#[test]
fn default_world_is_empty() {
    assert_eq!(World::default(), World::new());
    assert_eq!(World::new().len(), 0);
}

#[test]
fn the_255th_database_is_added_and_found_at_index_254() {
    let mut world = World::new();
    for number in 0..254u32 {
        assert_eq!(world.add_database(named(&format!("db{}", number))), Ok(()));
    }
    assert_eq!(world.len(), 254);
    assert_eq!(world.add_database(named("last")), Ok(()));
    assert_eq!(world.len(), 255);
    assert_eq!(world.database(254).unwrap().name(), "last");
    assert_eq!(world.database(0).unwrap().name(), "db0");
    assert_eq!(world.database(253).unwrap().name(), "db253");
}

#[test]
fn the_256th_database_is_refused() {
    let mut world = World::new();
    for number in 0..255u32 {
        world.add_database(named(&format!("db{}", number))).unwrap();
    }
    let before = world.clone();
    assert_eq!(world.add_database(named("one too many")), Err(Error::CapacityExceeded));
    assert_eq!(world, before);
    assert_eq!(world.len(), 255);
    assert_eq!(world.database(255), Err(Error::NotFound(Missing::Database)));
    // The full world still travels.
    let bytes = world.to_bytes().unwrap();
    assert_eq!(bytes[0], 255);
    assert_eq!(World::deserialize(&bytes), Ok(world));
}

#[test]
fn the_256th_collection_is_refused() {
    let mut database = named("full");
    for number in 0..255u32 {
        let collection = Collection::new(format!("c{}", number)).unwrap();
        assert_eq!(database.add_collection(collection), Ok(()));
    }
    assert_eq!(database.len(), 255);
    assert_eq!(database.collection(254).unwrap().name(), "c254");
    let before = database.clone();
    let extra = Collection::new("extra".to_string()).unwrap();
    assert_eq!(database.add_collection(extra), Err(Error::CapacityExceeded));
    assert_eq!(database, before);
}

#[test]
fn database_name_has_the_string_limit() {
    assert!(Database::new("d".repeat(255)).is_ok());
    assert_eq!(Database::new("d".repeat(256)), Err(Error::CapacityExceeded));
    assert_eq!(named("x").len(), 0);
    assert_eq!(named("x").name(), "x");
}

#[test]
fn database_index_5_of_one_database_is_not_found() {
    let world = small_world();
    assert_eq!(world.database(5), Err(Error::NotFound(Missing::Database)));
    assert_eq!(world.database(1), Err(Error::NotFound(Missing::Database)));
    assert!(world.database(0).is_ok());
    assert_eq!(world.collection(5, 0), Err(Error::NotFound(Missing::Database)));
    assert_eq!(world.get_string(5, 0, "a"), Err(Error::NotFound(Missing::Database)));
}

#[test]
fn string_accessor_on_a_number_is_a_type_mismatch() {
    let world = small_world();
    assert_eq!(world.get_string(0, 0, "n"), Err(Error::TypeMismatch));
    assert_eq!(world.get_string(0, 0, "a"), Ok(&"b".to_string()));
}

#[test]
fn lookups_name_the_first_thing_that_is_missing() {
    let world = small_world();
    assert_eq!(world.get_string(1, 9, "zz"), Err(Error::NotFound(Missing::Database)));
    assert_eq!(world.get_string(0, 9, "zz"), Err(Error::NotFound(Missing::Collection)));
    assert_eq!(world.get_string(0, 0, "zz"), Err(Error::NotFound(Missing::Key)));
    assert_eq!(world.collection(0, 1), Err(Error::NotFound(Missing::Collection)));
    assert_eq!(
        world.database(0).unwrap().collection(1),
        Err(Error::NotFound(Missing::Collection))
    );
    assert_eq!(world.collection(0, 0).unwrap().name(), "test");
}

#[test]
fn world_add_data_reaches_the_collection() {
    let mut world = small_world();
    assert_eq!(world.add_data(0, 0, "k".to_string(), Data::I16(-5)), Ok(()));
    assert_eq!(world.collection(0, 0).unwrap().get("k"), Ok(&Data::I16(-5)));
    assert_eq!(world.collection(0, 0).unwrap().len(), 3);
    let mut expected = small_world().collection(0, 0).unwrap().clone();
    expected.add_data("k".to_string(), Data::I16(-5)).unwrap();
    assert_eq!(world.collection(0, 0).unwrap(), &expected);
}

#[test]
fn world_add_data_fails_without_a_change() {
    let mut world = small_world();
    let before = world.clone();
    assert_eq!(
        world.add_data(3, 0, "k".to_string(), Data::U8(1)),
        Err(Error::NotFound(Missing::Database))
    );
    assert_eq!(
        world.add_data(0, 3, "k".to_string(), Data::U8(1)),
        Err(Error::NotFound(Missing::Collection))
    );
    assert_eq!(
        world.add_data(0, 0, "k".repeat(256), Data::U8(1)),
        Err(Error::CapacityExceeded)
    );
    assert_eq!(
        world.modify_data(0, 0, "a".to_string(), Data::String("s".repeat(256))),
        Err(Error::CapacityExceeded)
    );
    assert_eq!(
        world.modify_data(2, 0, "a".to_string(), Data::U8(1)),
        Err(Error::NotFound(Missing::Database))
    );
    assert_eq!(
        world.delete_data(0, 1, "a".to_string()),
        Err(Error::NotFound(Missing::Collection))
    );
    assert_eq!(
        world.delete_data(1, 0, "a".to_string()),
        Err(Error::NotFound(Missing::Database))
    );
    assert_eq!(world, before);
}

#[test]
fn world_modify_and_delete_reach_the_collection() {
    let mut world = small_world();
    assert_eq!(world.modify_data(0, 0, "a".to_string(), Data::U8(1)), Ok(()));
    assert_eq!(world.collection(0, 0).unwrap().get("a"), Ok(&Data::U8(1)));
    assert_eq!(world.delete_data(0, 0, "n".to_string()), Ok(()));
    assert_eq!(world.collection(0, 0).unwrap().len(), 1);
    assert_eq!(world.delete_data(0, 0, "absent".to_string()), Ok(()));
    assert_eq!(world.collection(0, 0).unwrap().len(), 1);
}

#[test]
fn database_edits_leave_the_other_collections() {
    let mut database = named("d");
    for name in ["first", "second", "third"] {
        database.add_collection(Collection::new(name.to_string()).unwrap()).unwrap();
    }
    assert_eq!(database.add_data(1, "k".to_string(), Data::U8(1)), Ok(()));
    assert_eq!(database.modify_data(1, "k".to_string(), Data::U8(2)), Ok(()));
    assert_eq!(database.add_data(2, "j".to_string(), Data::U8(3)), Ok(()));
    assert_eq!(database.delete_data(2, "j".to_string()), Ok(()));
    assert_eq!(database.len(), 3);
    assert_eq!(database.collection(0).unwrap(), &Collection::new("first".to_string()).unwrap());
    assert_eq!(database.collection(1).unwrap().name(), "second");
    assert_eq!(database.collection(1).unwrap().get("k"), Ok(&Data::U8(2)));
    assert_eq!(database.collection(2).unwrap(), &Collection::new("third".to_string()).unwrap());
    assert_eq!(
        database.add_data(3, "k".to_string(), Data::U8(1)),
        Err(Error::NotFound(Missing::Collection))
    );
    assert_eq!(
        database.delete_data(3, "k".to_string()),
        Err(Error::NotFound(Missing::Collection))
    );
    assert_eq!(
        database.modify_data(0, "k".repeat(256), Data::U8(1)),
        Err(Error::CapacityExceeded)
    );
}

#[test]
fn world_add_collection_reaches_the_database() {
    let mut world = small_world();
    let extra = Collection::new("extra".to_string()).unwrap();
    assert_eq!(world.add_collection(0, extra.clone()), Ok(()));
    assert_eq!(world.database(0).unwrap().len(), 2);
    assert_eq!(world.collection(0, 1), Ok(&extra));
    assert_eq!(world.add_collection(1, extra), Err(Error::NotFound(Missing::Database)));
}

#[test]
fn databases_keep_the_order_in_which_they_came() {
    let mut world = World::new();
    for name in ["zeta", "alpha", "mid"] {
        world.add_database(named(name)).unwrap();
    }
    assert_eq!(world.database(0).unwrap().name(), "zeta");
    assert_eq!(world.database(1).unwrap().name(), "alpha");
    assert_eq!(world.database(2).unwrap().name(), "mid");
}

#[test]
fn every_error_has_its_message() {
    assert_eq!(Error::CapacityExceeded.message(), "This data is too large");
    assert_eq!(Error::NotFound(Missing::Database).message(), "This database does not exist");
    assert_eq!(Error::NotFound(Missing::Collection).message(), "This collection does not exist");
    assert_eq!(Error::NotFound(Missing::Key).message(), "This data does not exist");
    assert_eq!(Error::TypeMismatch.message(), "This data is not supported");
    assert_eq!(Error::MalformedStream.message(), "This stream is malformed");
    assert_eq!(Error::Sink.message(), "This sink refused the data");
}
