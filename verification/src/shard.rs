//! The shard-index computation.

use vstd::prelude::*;

verus! {

/// The shard that a column value falls into: the value reduced modulo the
/// number of shards.
pub open spec fn spec_shard_index(column_value: u8, shard_count: u8) -> int {
    (column_value as int) % (shard_count as int)
}

/// Computes the shard index of `column_value` among `shard_count` shards.
pub fn shard_index(column_value: u8, shard_count: u8) -> (index: u8)
    requires
        shard_count > 0,
    ensures
        index as int == spec_shard_index(column_value, shard_count),
        0 <= index < shard_count,
{
    column_value % shard_count
}

/// The shard index of any column value lies in `0..shard_count`.
pub proof fn lemma_shard_index_in_range(column_value: u8, shard_count: u8)
    requires
        shard_count > 0,
    ensures
        0 <= spec_shard_index(column_value, shard_count) < shard_count,
{
}

/// A column value that is a multiple of the shard count, zero among them,
/// falls into shard 0.
pub proof fn lemma_multiple_falls_into_shard_zero(factor: nat, shard_count: u8)
    requires
        shard_count > 0,
        factor * shard_count <= u8::MAX,
    ensures
        spec_shard_index((factor * shard_count) as u8, shard_count) == 0,
        spec_shard_index(0, shard_count) == 0,
{
    vstd::arithmetic::div_mod::lemma_mod_multiples_basic(factor as int, shard_count as int);
}

} // verus!
