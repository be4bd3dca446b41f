//! What holds of every store, stated over the model and proved from the
//! definitions that the operations' contracts are written in.

#[allow(unused_imports)]
use crate::model::{
    committed, in_transaction, lookup, rolled_back, valid, with_begin, with_set, with_unset,
    Layers,
};
use vstd::prelude::*;

verus! {

/// A read that follows a write of the same key yields the written value.
pub proof fn law_get_after_set(layers: Layers, key: Seq<char>, value: u32)
    requires
        valid(layers),
    ensures
        lookup(with_set(layers, key, value), key) == Some(value),
{
}

/// A read that follows the removal of the same key finds nothing, whatever
/// the store held before.
pub proof fn law_get_after_unset(layers: Layers, key: Seq<char>)
    requires
        valid(layers),
    ensures
        lookup(with_unset(layers, key), key) == None::<u32>,
{
}

/// A write touches one key of the active layer and nothing else: every other
/// key reads as before, and the layers below are the same.
pub proof fn law_set_is_local(layers: Layers, key: Seq<char>, value: u32, other: Seq<char>)
    requires
        valid(layers),
        other != key,
    ensures
        lookup(with_set(layers, key, value), other) == lookup(layers, other),
        with_set(layers, key, value).drop_last() == layers.drop_last(),
{
    assert(with_set(layers, key, value).drop_last() =~= layers.drop_last());
}

/// With only the base layer there, rollback and commit leave the store as it is.
pub proof fn law_nothing_to_close(layers: Layers)
    requires
        valid(layers),
        !in_transaction(layers),
    ensures
        rolled_back(layers) == layers,
        committed(layers) == layers,
{
}

/// Opening a transaction and rolling it back at once gives back the store
/// as it was, layer for layer.
pub proof fn law_begin_then_rollback(layers: Layers)
    requires
        valid(layers),
    ensures
        in_transaction(with_begin(layers)),
        rolled_back(with_begin(layers)) == layers,
{
    assert(with_begin(layers).drop_last() =~= layers);
}

/// A write made inside a transaction is gone after the rollback: the store
/// is again what it was before the transaction was opened.
pub proof fn law_rollback_undoes_set(layers: Layers, key: Seq<char>, value: u32)
    requires
        valid(layers),
    ensures
        rolled_back(with_set(with_begin(layers), key, value)) == layers,
{
    assert(with_set(with_begin(layers), key, value).drop_last() =~= layers);
}

/// A removal made inside a transaction is gone after the rollback.
pub proof fn law_rollback_undoes_unset(layers: Layers, key: Seq<char>)
    requires
        valid(layers),
    ensures
        rolled_back(with_unset(with_begin(layers), key)) == layers,
{
    assert(with_unset(with_begin(layers), key).drop_last() =~= layers);
}

/// One commit closes every open transaction: after two nested transactions
/// that both wrote `key`, the store has a single layer, and it holds the
/// inner write.
pub proof fn law_commit_flattens(layers: Layers, key: Seq<char>, outer: u32, inner: u32)
    requires
        valid(layers),
    ensures
        ({
            let nested = with_set(with_begin(with_set(with_begin(layers), key, outer)), key, inner);
            &&& committed(nested).len() == 1
            &&& lookup(committed(nested), key) == Some(inner)
        }),
{
}

/// A commit inside a transaction keeps what the active layer held, under every key.
pub proof fn law_commit_keeps_active_layer(layers: Layers, key: Seq<char>)
    requires
        in_transaction(layers),
    ensures
        committed(layers).len() == 1,
        lookup(committed(layers), key) == lookup(layers, key),
{
}

/// No operation removes the base layer.
pub proof fn law_base_layer_is_kept(layers: Layers, key: Seq<char>, value: u32)
    requires
        valid(layers),
    ensures
        valid(with_set(layers, key, value)),
        valid(with_unset(layers, key)),
        valid(with_begin(layers)),
        valid(rolled_back(layers)),
        valid(committed(layers)),
{
}

} // verus!
