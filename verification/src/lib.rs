//! Shard routing for a partitioned table: decodes a length-prefixed request,
//! reduces the sharding column's value modulo the shard count, and appends the
//! physical table name to the request buffer.

pub mod buffer;
pub mod condition;
pub mod decimal;
pub mod error;
pub mod resolver;
pub mod shard;
pub mod utf8;
