//! The store itself: the operations of a transactional key-value store, and
//! the in-memory implementation of them.

use crate::layer::Layer;
#[allow(unused_imports)]
use crate::model::{
    committed, in_transaction, initial, lookup, rolled_back, valid, with_begin, with_set,
    with_unset, Layers, NO_TRANSACTION,
};
use vstd::prelude::*;

verus! {

/// A key-value store with nested transactions.
///
/// The view of a store is its stack of layers, base layer first. Every
/// operation reads or changes the last layer only.
pub trait SimpleDB: View<V = Layers> {
    /// The base layer is never removed.
    proof fn base_layer_stays(&self)
        ensures
            valid(self@),
    ;

    /// Writes `value` under `key` in the active layer.
    fn set(&mut self, key: String, value: u32)
        ensures
            final(self)@ == with_set(old(self)@, key@, value),
    ;

    /// Reads the value under `key` in the active layer.
    fn get(&mut self, key: String) -> (found: Option<&u32>)
        ensures
            final(self)@ == old(self)@,
            match found {
                Some(value) => lookup(old(self)@, key@) == Some(*value),
                None => lookup(old(self)@, key@) is None,
            },
    ;

    /// Removes `key` from the active layer.
    fn unset(&mut self, key: String)
        ensures
            final(self)@ == with_unset(old(self)@, key@),
    ;

    /// Opens a transaction on top of the active layer.
    fn begin_transaction(&mut self)
        ensures
            final(self)@ == with_begin(old(self)@),
    ;

    /// Gives up the innermost transaction.
    fn rollback(&mut self) -> (outcome: Result<(), String>)
        ensures
            outcome is Ok <==> in_transaction(old(self)@),
            final(self)@ == rolled_back(old(self)@),
            outcome matches Err(message) ==> message@ == NO_TRANSACTION@,
            outcome is Err ==> final(self)@ == old(self)@,
    ;

    /// Makes the active layer the base layer, closing every open transaction.
    fn commit(&mut self) -> (outcome: Result<(), String>)
        ensures
            outcome is Ok <==> in_transaction(old(self)@),
            final(self)@ == committed(old(self)@),
            outcome matches Err(message) ==> message@ == NO_TRANSACTION@,
            outcome is Err ==> final(self)@ == old(self)@,
    ;
}

/// A store that keeps all its layers in memory.
///
/// The active layer is held apart from the layers below it, so that a store
/// without any layer cannot be built.
pub struct InMemoryDB {
    /// The layers below the active one, base layer first.
    suspended: Vec<Layer>,
    /// The layer that reads and writes go to.
    active: Layer,
}

impl View for InMemoryDB {
    type V = Layers;

    closed spec fn view(&self) -> Layers {
        self.suspended@.map_values(|layer: Layer| layer@).push(self.active@)
    }
}

impl InMemoryDB {
    /// Creates a store with one empty base layer and no open transaction.
    pub fn new() -> (db: InMemoryDB)
        ensures
            db@ == initial(),
    {
        let db = InMemoryDB { suspended: Vec::new(), active: Layer::new() };
        assert(db@ =~= initial());
        db
    }
}

impl SimpleDB for InMemoryDB {
    proof fn base_layer_stays(&self) {
    }

    fn set(&mut self, key: String, value: u32) {
        self.active.insert(key, value);
        assert(self@ =~= with_set(old(self)@, key@, value));
    }

    fn get(&mut self, key: String) -> (found: Option<&u32>) {
        self.active.get(&key)
    }

    fn unset(&mut self, key: String) {
        self.active.remove(&key);
        assert(self@ =~= with_unset(old(self)@, key@));
    }

    fn begin_transaction(&mut self) {
        let snapshot = self.active.clone();
        self.suspended.push(snapshot);
        assert(self@ =~= with_begin(old(self)@));
    }

    fn rollback(&mut self) -> (outcome: Result<(), String>) {
        match self.suspended.pop() {
            Some(previous) => {
                self.active = previous;
                assert(self@ =~= old(self)@.drop_last());
                Ok(())
            },
            None => Err(NO_TRANSACTION.to_owned()),
        }
    }

    fn commit(&mut self) -> (outcome: Result<(), String>) {
        if self.suspended.len() == 0 {
            Err(NO_TRANSACTION.to_owned())
        } else {
            self.suspended.clear();
            assert(self@ =~= seq![old(self)@.last()]);
            Ok(())
        }
    }
}

} // verus!
