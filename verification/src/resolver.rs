//! The resolver: from a request buffer to the physical table name, which it
//! appends behind the request.

use vstd::prelude::*;
use vstd::utf8::{
    is_leading_byte_width_1, partial_valid_utf8, partial_valid_utf8_extend_ascii_block,
    valid_utf8, valid_utf8_concat,
};
use crate::buffer::RequestBuffer;
use crate::condition::{
    decode_condition, lemma_fields_are_utf8, spec_decode_condition, spec_split, Condition,
    ConditionView,
};
use crate::decimal::{format_u8, is_digit, lemma_decimal_denotes, spec_decimal};
use crate::error::ShardError;
use crate::shard::{shard_index, spec_shard_index};

verus! {

/// The number of shards of the default configuration.
pub const SHARDING_COUNT: u8 = 3;

/// The capacity of the buffer that a request and its response share.
pub const BUFFER_CAPACITY: usize = 1024;

/// ASCII `_`, which stands between the logical table's name and the shard
/// index in a physical table name.
pub const UNDERSCORE: u8 = 0x5f;

/// The condition segment of a request payload. The payload starts with a
/// one-byte length and that many reserved bytes; then come a one-byte length
/// and that many bytes of condition. Bytes after the condition are ignored.
pub open spec fn spec_condition_segment(payload: Seq<u8>) -> Result<Seq<u8>, ShardError> {
    if payload.len() == 0 {
        Err(ShardError::TruncatedBuffer)
    } else {
        let length_at = 1 + payload[0];
        if length_at >= payload.len() {
            Err(ShardError::TruncatedBuffer)
        } else {
            let start = length_at + 1;
            let end = start + payload[length_at];
            if end > payload.len() {
                Err(ShardError::TruncatedBuffer)
            } else {
                Ok(payload.subrange(start, end))
            }
        }
    }
}

/// What a request payload decodes to: the decoded condition segment, or the
/// first error met on the way.
pub open spec fn spec_decode_request(payload: Seq<u8>) -> Result<ConditionView, ShardError> {
    match spec_condition_segment(payload) {
        Err(error) => Err(error),
        Ok(segment) => spec_decode_condition(segment),
    }
}

/// The physical table name: the logical name, an underscore, and the shard
/// index in decimal.
pub open spec fn spec_table_name(logic_table: Seq<u8>, shard: u8) -> Seq<u8> {
    logic_table.push(0x5f) + spec_decimal(shard as nat)
}

/// The physical table name that a request payload routes to among
/// `shard_count` shards.
pub open spec fn spec_route(payload: Seq<u8>, shard_count: u8) -> Result<Seq<u8>, ShardError> {
    match spec_decode_request(payload) {
        Err(error) => Err(error),
        Ok(condition) => Ok(
            spec_table_name(
                condition.logic_table,
                spec_shard_index(condition.column_value, shard_count) as u8,
            ),
        ),
    }
}

/// The outcome of resolving a request in a buffer of `capacity` bytes: the
/// name that `spec_route` gives, unless it does not fit behind the payload.
pub open spec fn spec_resolve(payload: Seq<u8>, capacity: nat, shard_count: u8) -> Result<
    Seq<u8>,
    ShardError,
> {
    match spec_route(payload, shard_count) {
        Err(error) => Err(error),
        Ok(name) => if payload.len() + name.len() > capacity {
            Err(ShardError::BufferOverflow)
        } else {
            Ok(name)
        },
    }
}

/// Whatever stands behind a complete request does not change where it
/// routes to. So a buffer that was resolved once routes to the same table
/// again.
pub proof fn lemma_route_ignores_trailing_bytes(
    payload: Seq<u8>,
    trailing: Seq<u8>,
    shard_count: u8,
)
    requires
        spec_condition_segment(payload) is Ok,
    ensures
        spec_condition_segment(payload + trailing) == spec_condition_segment(payload),
        spec_route(payload + trailing, shard_count) == spec_route(payload, shard_count),
{
    let longer = payload + trailing;
    let length_at = 1 + payload[0];
    let start = length_at + 1;
    let end = start + payload[length_at];
    assert(longer[0] == payload[0]);
    assert(longer[length_at] == payload[length_at]);
    assert(longer.subrange(start, end) =~= payload.subrange(start, end));
}

/// The physical name of a table whose logical name is well-formed UTF-8 is
/// well-formed UTF-8 too.
pub proof fn lemma_table_name_is_utf8(logic_table: Seq<u8>, shard: u8)
    requires
        valid_utf8(logic_table),
    ensures
        valid_utf8(spec_table_name(logic_table, shard)),
{
    let suffix = seq![0x5fu8] + spec_decimal(shard as nat);
    lemma_decimal_denotes(shard as nat);
    assert forall|i: int| 0 <= i < suffix.len() implies #[trigger] is_leading_byte_width_1(
        suffix[i],
    ) by {
        if i > 0 {
            assert(is_digit(spec_decimal(shard as nat)[i - 1]));
        }
    }
    assert(suffix.subrange(0, 0) =~= Seq::<u8>::empty());
    assert(partial_valid_utf8(suffix, 0));
    partial_valid_utf8_extend_ascii_block(suffix, 0, suffix.len() as int);
    assert(suffix.subrange(0, suffix.len() as int) =~= suffix);
    valid_utf8_concat(logic_table, suffix);
    assert(spec_table_name(logic_table, shard) =~= logic_table + suffix);
}

/// Every name that a request routes to is well-formed UTF-8.
pub proof fn lemma_routed_name_is_utf8(payload: Seq<u8>, shard_count: u8)
    requires
        spec_route(payload, shard_count) is Ok,
    ensures
        valid_utf8(spec_route(payload, shard_count)->Ok_0),
{
    let segment = spec_condition_segment(payload)->Ok_0;
    let condition = spec_decode_request(payload)->Ok_0;
    lemma_fields_are_utf8(segment);
    assert(condition.logic_table == spec_split(segment)[1]);
    lemma_table_name_is_utf8(
        condition.logic_table,
        spec_shard_index(condition.column_value, shard_count) as u8,
    );
}

/// Two buffers with the same payload and the same capacity resolve alike:
/// to the same name, or to the same error.
pub proof fn lemma_resolve_deterministic(first: RequestBuffer, second: RequestBuffer, shard_count: u8)
    requires
        first.payload() == second.payload(),
        first.spec_capacity() == second.spec_capacity(),
    ensures
        spec_resolve(first.payload(), first.spec_capacity(), shard_count) == spec_resolve(
            second.payload(),
            second.spec_capacity(),
            shard_count,
        ),
{
}

/// A name that does not fit behind the request is never written: resolving
/// then fails with `BufferOverflow`.
pub proof fn lemma_overflow_is_refused(payload: Seq<u8>, capacity: nat, shard_count: u8)
    requires
        spec_route(payload, shard_count) is Ok,
        payload.len() + spec_route(payload, shard_count)->Ok_0.len() > capacity,
    ensures
        spec_resolve(payload, capacity, shard_count) == Err::<Seq<u8>, ShardError>(
            ShardError::BufferOverflow,
        ),
{
}

/// Finds the condition segment of the request in `buffer`.
pub fn condition_segment(buffer: &RequestBuffer) -> (outcome: Result<&[u8], ShardError>)
    ensures
        match outcome {
            Ok(segment) => spec_condition_segment(buffer.payload()) == Ok::<
                Seq<u8>,
                ShardError,
            >(segment@),
            Err(error) => spec_condition_segment(buffer.payload()) == Err::<Seq<u8>, ShardError>(
                error,
            ),
        },
{
    let target_names_length: u8 = match buffer.read_u8(0) {
        Ok(byte) => byte,
        Err(error) => { return Err(error); },
    };
    let length_at: usize = 1 + target_names_length as usize;
    let condition_length: u8 = match buffer.read_u8(length_at) {
        Ok(byte) => byte,
        Err(error) => { return Err(error); },
    };
    buffer.read_bytes(length_at + 1, condition_length as usize)
}

/// Decodes the request in `buffer`.
pub fn decode_request(buffer: &RequestBuffer) -> (outcome: Result<Condition, ShardError>)
    ensures
        match outcome {
            Ok(condition) => spec_decode_request(buffer.payload()) == Ok::<
                ConditionView,
                ShardError,
            >(condition@),
            Err(error) => spec_decode_request(buffer.payload()) == Err::<
                ConditionView,
                ShardError,
            >(error),
        },
{
    match condition_segment(buffer) {
        Ok(segment) => decode_condition(segment),
        Err(error) => Err(error),
    }
}

/// Builds the physical table name of shard `shard` of `logic_table`.
pub fn physical_table_name(logic_table: &[u8], shard: u8) -> (name: Vec<u8>)
    ensures
        name@ == spec_table_name(logic_table@, shard),
{
    let mut name: Vec<u8> = vstd::slice::slice_to_vec(logic_table);
    name.push(UNDERSCORE);
    let mut digits: Vec<u8> = format_u8(shard);
    name.append(&mut digits);
    name
}

/// Where a resolved name stands in the buffer.
#[derive(Clone, Copy, Debug, PartialEq, Eq, Structural)]
pub struct Resolution {
    /// The offset of the name's first byte: the length of the request.
    pub offset: usize,
    /// The number of bytes of the name.
    pub length: usize,
}

/// What resolving does to a buffer. Where `spec_resolve` gives a name, the
/// buffer afterwards holds the request followed by that name, and the outcome
/// says where the name stands. Where it gives an error, the outcome is that
/// error and the buffer is as it was. The capacity never changes.
pub open spec fn resolved(
    before: RequestBuffer,
    after: RequestBuffer,
    outcome: Result<Resolution, ShardError>,
    shard_count: u8,
) -> bool {
    &&& after.spec_capacity() == before.spec_capacity()
    &&& match spec_resolve(before.payload(), before.spec_capacity(), shard_count) {
        Ok(name) => {
            &&& outcome matches Ok(resolution)
            &&& resolution.offset == before.payload().len()
            &&& resolution.length == name.len()
            &&& after.payload() == before.payload() + name
        },
        Err(error) => {
            &&& outcome == Err::<Resolution, ShardError>(error)
            &&& after == before
        },
    }
}

/// How rows are spread over the physical tables.
#[derive(Clone, Copy, Debug, PartialEq, Eq, Structural)]
pub struct ShardConfig {
    shard_count: u8,
}

impl ShardConfig {
    /// The number of shards, which is never zero.
    pub closed spec fn spec_shard_count(self) -> u8 {
        self.shard_count
    }

    /// The configuration's invariant: there is at least one shard.
    pub open spec fn wf(self) -> bool {
        self.spec_shard_count() > 0
    }

    /// A configuration with `shard_count` shards, or nothing if that is zero.
    pub fn new(shard_count: u8) -> (config: Option<ShardConfig>)
        ensures
            config is Some <==> shard_count > 0,
            config matches Some(c) ==> c.wf() && c.spec_shard_count() == shard_count,
    {
        if shard_count == 0 {
            None
        } else {
            Some(ShardConfig { shard_count })
        }
    }

    /// The number of shards.
    pub fn shard_count(&self) -> (count: u8)
        ensures
            count == self.spec_shard_count(),
    {
        self.shard_count
    }
}

impl Default for ShardConfig {
    /// The configuration with `SHARDING_COUNT` shards.
    fn default() -> (config: ShardConfig)
        ensures
            config.wf(),
            config.spec_shard_count() == SHARDING_COUNT,
    {
        ShardConfig { shard_count: SHARDING_COUNT }
    }
}

/// Resolves requests under one configuration.
#[derive(Clone, Copy, Debug, PartialEq, Eq, Structural)]
pub struct ShardResolver {
    config: ShardConfig,
}

impl ShardResolver {
    /// The configuration that this resolver works under.
    pub closed spec fn spec_config(self) -> ShardConfig {
        self.config
    }

    /// The resolver's invariant: its configuration is well-formed.
    pub open spec fn wf(self) -> bool {
        self.spec_config().wf()
    }

    /// A resolver that works under `config`.
    pub fn new(config: ShardConfig) -> (resolver: ShardResolver)
        ensures
            resolver.spec_config() == config,
    {
        ShardResolver { config }
    }

    /// Computes the physical table name for the request in `buffer`, without
    /// writing it.
    pub fn route(&self, buffer: &RequestBuffer) -> (outcome: Result<Vec<u8>, ShardError>)
        requires
            self.wf(),
        ensures
            match outcome {
                Ok(name) => spec_route(buffer.payload(), self.spec_config().spec_shard_count())
                    == Ok::<Seq<u8>, ShardError>(name@),
                Err(error) => spec_route(buffer.payload(), self.spec_config().spec_shard_count())
                    == Err::<Seq<u8>, ShardError>(error),
            },
    {
        match decode_request(buffer) {
            Err(error) => Err(error),
            Ok(condition) => {
                let shard: u8 = shard_index(condition.column_value, self.config.shard_count);
                Ok(physical_table_name(condition.logic_table.as_slice(), shard))
            },
        }
    }

    /// Resolves the request in `buffer`: appends the physical table name
    /// behind the request and says where it stands. On any error the buffer
    /// is left as it was.
    pub fn resolve(&self, buffer: &mut RequestBuffer) -> (outcome: Result<Resolution, ShardError>)
        requires
            self.wf(),
            old(buffer).wf(),
        ensures
            final(buffer).wf(),
            resolved(
                *old(buffer),
                *final(buffer),
                outcome,
                self.spec_config().spec_shard_count(),
            ),
    {
        let name: Vec<u8> = match self.route(buffer) {
            Ok(name) => name,
            Err(error) => { return Err(error); },
        };
        match buffer.append(name.as_slice()) {
            Ok(offset) => Ok(Resolution { offset, length: name.len() }),
            Err(error) => Err(error),
        }
    }
}

/// Resolves the request in `buffer` among `SHARDING_COUNT` shards.
pub fn do_work(buffer: &mut RequestBuffer) -> (outcome: Result<Resolution, ShardError>)
    requires
        old(buffer).wf(),
    ensures
        final(buffer).wf(),
        resolved(*old(buffer), *final(buffer), outcome, SHARDING_COUNT),
{
    let resolver: ShardResolver = ShardResolver::new(ShardConfig::default());
    resolver.resolve(buffer)
}

} // verus!
