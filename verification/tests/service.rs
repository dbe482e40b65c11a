use database::{get_data, set_data, Collection, Data, Database, World};

fn served_world() -> World {
    let mut collection = Collection::new("test".to_string()).unwrap();
    collection.add_data("a".to_string(), Data::String("b".to_string())).unwrap();
    collection.add_data("number".to_string(), Data::U32(5)).unwrap();
    let mut database = Database::new("hello".to_string()).unwrap();
    database.add_collection(collection).unwrap();
    let mut world = World::default();
    world.add_database(database).unwrap();
    world
}

#[test]
fn get_answers_with_the_string() {
    assert_eq!(get_data(&served_world(), 0, 0, "a"), "b");
}

#[test]
fn get_names_a_missing_database() {
    assert_eq!(get_data(&served_world(), 5, 0, "a"), "This database does not exist");
}

#[test]
fn get_names_a_missing_collection() {
    assert_eq!(get_data(&served_world(), 0, 1, "a"), "This collection does not exist");
}

#[test]
fn get_names_a_missing_key() {
    assert_eq!(get_data(&served_world(), 0, 0, "zz"), "This data does not exist");
}

#[test]
fn get_names_a_value_that_is_no_string() {
    assert_eq!(get_data(&served_world(), 0, 0, "number"), "This data is not supported");
}

#[test]
fn set_defines_a_new_key() {
    let mut world = served_world();
    let reply = set_data(&mut world, 0, 0, "new".to_string(), "value".to_string());
    assert_eq!(reply, "The data was defined");
    assert_eq!(get_data(&world, 0, 0, "new"), "value");
    assert_eq!(world.collection(0, 0).unwrap().len(), 3);
}

#[test]
fn set_replaces_an_existing_key() {
    let mut world = served_world();
    let reply = set_data(&mut world, 0, 0, "a".to_string(), "c".to_string());
    assert_eq!(reply, "The data was defined");
    assert_eq!(get_data(&world, 0, 0, "a"), "c");
    let reply = set_data(&mut world, 0, 0, "number".to_string(), "five".to_string());
    assert_eq!(reply, "The data was defined");
    assert_eq!(get_data(&world, 0, 0, "number"), "five");
    assert_eq!(world.collection(0, 0).unwrap().len(), 2);
}

#[test]
fn set_names_what_is_missing_and_changes_nothing() {
    let mut world = served_world();
    let reply = set_data(&mut world, 1, 0, "a".to_string(), "c".to_string());
    assert_eq!(reply, "This database does not exist");
    let reply = set_data(&mut world, 0, 1, "a".to_string(), "c".to_string());
    assert_eq!(reply, "This collection does not exist");
    assert_eq!(world, served_world());
}

#[test]
fn set_refuses_what_does_not_fit_and_changes_nothing() {
    let mut world = served_world();
    let reply = set_data(&mut world, 0, 0, "a".to_string(), "v".repeat(256));
    assert_eq!(reply, "This data is too large");
    let reply = set_data(&mut world, 0, 0, "k".repeat(256), "v".to_string());
    assert_eq!(reply, "This data is too large");
    assert_eq!(world, served_world());
    let reply = set_data(&mut world, 0, 0, "k".repeat(255), "v".repeat(255));
    assert_eq!(reply, "The data was defined");
}
