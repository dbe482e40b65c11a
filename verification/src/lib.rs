//! A small in-memory document store and its binary wire format.
//!
//! A [`World`] owns an ordered list of [`Database`]s, a database owns an ordered
//! list of [`Collection`]s, and a collection maps string keys to [`Data`] values.
//! Every string in the tree has at most 255 bytes and every list at most 255
//! items, so that the whole tree can always be written to a byte sink:
//!
//! ```text
//! World      := count Database*
//! Database   := String count Collection*
//! Collection := String count Entry*          entries in ascending key order
//! Entry      := String Value
//! Value      := tag payload
//! String     := length byte*
//! ```
//!
//! `count`, `length` and `tag` are one byte each; numbers are big-endian, signed
//! ones in two's complement. Each type has a model ([`WorldView`] and so on), the
//! operations are stated over the models, and [`format::Format`] holds the two
//! laws that make reading the strict inverse of writing.

pub mod collection;
pub mod data;
pub mod database;
pub mod entries;
pub mod error;
pub mod format;
pub mod order;
pub mod service;
pub mod sink;
pub mod stored;
pub mod wire;
pub mod world;

pub use collection::{Collection, CollectionView};
pub use data::{Data, DataView};
pub use database::{Database, DatabaseView};
pub use error::{Error, Missing};
pub use service::{get_data, set_data};
pub use world::{World, WorldView};
