//! The mathematical model of the store: a non-empty stack of maps, base layer
//! first, and what each operation makes of such a stack.

use vstd::prelude::*;

verus! {

/// The contents of one layer.
pub type Contents = Map<Seq<char>, u32>;

/// The layers of a store, base layer first. The last layer is the active one.
pub type Layers = Seq<Map<Seq<char>, u32>>;

/// The message that `rollback` and `commit` fail with when no transaction is open.
pub const NO_TRANSACTION: &'static str = "No transactions in progress";

/// A stack that a store can be in: the base layer is always there.
pub open spec fn valid(layers: Layers) -> bool {
    layers.len() >= 1
}

/// A transaction is open when there is a layer above the base layer.
pub open spec fn in_transaction(layers: Layers) -> bool {
    layers.len() > 1
}

/// The store without any transaction: one empty base layer.
pub open spec fn initial() -> Layers {
    seq![Map::<Seq<char>, u32>::empty()]
}

/// What a read of `key` yields: the active layer's entry, and nothing from the layers below.
pub open spec fn lookup(layers: Layers, key: Seq<char>) -> Option<u32>
    recommends
        valid(layers),
{
    if layers.last().contains_key(key) {
        Some(layers.last()[key])
    } else {
        None
    }
}

/// The stack after `key` was set to `value` in the active layer.
pub open spec fn with_set(layers: Layers, key: Seq<char>, value: u32) -> Layers
    recommends
        valid(layers),
{
    layers.update(layers.len() - 1, layers.last().insert(key, value))
}

/// The stack after `key` was removed from the active layer.
pub open spec fn with_unset(layers: Layers, key: Seq<char>) -> Layers
    recommends
        valid(layers),
{
    layers.update(layers.len() - 1, layers.last().remove(key))
}

/// The stack after a transaction was opened: a copy of the active layer on top.
pub open spec fn with_begin(layers: Layers) -> Layers
    recommends
        valid(layers),
{
    layers.push(layers.last())
}

/// The stack after a rollback: without its active layer, or unchanged when
/// only the base layer is there.
pub open spec fn rolled_back(layers: Layers) -> Layers
    recommends
        valid(layers),
{
    if in_transaction(layers) {
        layers.drop_last()
    } else {
        layers
    }
}

/// The stack after a commit: the active layer alone, as the new base layer,
/// however many transactions were open; unchanged when none was.
pub open spec fn committed(layers: Layers) -> Layers
    recommends
        valid(layers),
{
    if in_transaction(layers) {
        seq![layers.last()]
    } else {
        layers
    }
}

} // verus!
