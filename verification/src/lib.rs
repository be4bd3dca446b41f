//! An in-memory key-value store with nested transactions.
//!
//! The store is a stack of layers. Each layer maps string keys to `u32` values;
//! the bottom layer holds the committed state and every open transaction adds
//! one layer on top. Reads and writes only ever touch the topmost layer.
//!
//! - [`model`] says what a stack of layers is and what each operation makes of it.
//! - [`layer`] is the executable map that one layer is kept in.
//! - [`store`] holds the [`SimpleDB`] operations and [`InMemoryDB`], their implementation.
//! - [`laws`] proves what follows for every store: a read sees the last write,
//!   a rollback restores the state from before the transaction, a commit
//!   closes all open transactions at once.

pub mod laws;
pub mod layer;
pub mod model;
pub mod store;

pub use layer::Layer;
pub use model::NO_TRANSACTION;
pub use store::{InMemoryDB, SimpleDB};
