//! The condition segment of a request: comma-separated text that names the
//! logical table and carries the sharding column's value.

use vstd::prelude::*;
use vstd::slice::*;
use vstd::utf8::valid_utf8;
use crate::decimal::{parse_u8, spec_parse_u8};
use crate::error::ShardError;
use crate::utf8::is_valid_utf8;

verus! {

/// ASCII `,`, which separates the fields of a condition.
pub const COMMA: u8 = 0x2c;

/// The position of the first comma in `text`, or `text.len()` if it holds
/// none.
pub open spec fn first_comma(text: Seq<u8>) -> int
    decreases text.len(),
{
    if text.len() == 0 || text[0] == 0x2c {
        0
    } else {
        1 + first_comma(text.drop_first())
    }
}

/// The fields of `text`: the pieces between its commas, in order. A text
/// with `k` commas has `k + 1` fields, some of which may be empty.
pub open spec fn spec_split(text: Seq<u8>) -> Seq<Seq<u8>>
    decreases text.len(),
{
    let end = first_comma(text);
    if 0 <= end < text.len() {
        seq![text.take(end)] + spec_split(text.skip(end + 1))
    } else {
        seq![text]
    }
}

/// `first_comma` finds the position `at` when no comma stands before it and
/// `at` is a comma or the end of the text.
pub proof fn lemma_first_comma(text: Seq<u8>, at: int)
    requires
        0 <= at <= text.len(),
        forall|k: int| 0 <= k < at ==> text[k] != 0x2c,
        at < text.len() ==> text[at] == 0x2c,
    ensures
        first_comma(text) == at,
    decreases at,
{
    if at > 0 {
        let rest = text.drop_first();
        assert forall|k: int| 0 <= k < at - 1 implies rest[k] != 0x2c by {
            assert(rest[k] == text[k + 1]);
        }
        lemma_first_comma(rest, at - 1);
    }
}

/// `first_comma` stays within the text, stands on a comma unless it is the
/// end of the text, and has no comma before it.
pub proof fn lemma_first_comma_found(text: Seq<u8>)
    ensures
        0 <= first_comma(text) <= text.len(),
        first_comma(text) < text.len() ==> text[first_comma(text)] == 0x2c,
        forall|k: int| 0 <= k < first_comma(text) ==> text[k] != 0x2c,
    decreases text.len(),
{
    if text.len() != 0 && text[0] != 0x2c {
        let rest = text.drop_first();
        lemma_first_comma_found(rest);
        assert forall|k: int| 0 <= k < first_comma(text) implies text[k] != 0x2c by {
            if k > 0 {
                assert(text[k] == rest[k - 1]);
            }
        }
    }
}

/// The number of commas in `text`.
pub open spec fn comma_count(text: Seq<u8>) -> nat
    decreases text.len(),
{
    if text.len() == 0 {
        0
    } else if text[0] == 0x2c {
        1 + comma_count(text.drop_first())
    } else {
        comma_count(text.drop_first())
    }
}

/// The commas of a text are its first comma and those behind it.
proof fn lemma_comma_count_behind_first(text: Seq<u8>)
    ensures
        first_comma(text) < text.len() ==> comma_count(text) == 1 + comma_count(
            text.skip(first_comma(text) + 1),
        ),
        first_comma(text) >= text.len() ==> comma_count(text) == 0,
    decreases text.len(),
{
    if text.len() != 0 {
        let rest = text.drop_first();
        if text[0] == 0x2c {
            assert(text.skip(1) =~= rest);
        } else {
            lemma_comma_count_behind_first(rest);
            lemma_first_comma_found(rest);
            if first_comma(rest) < rest.len() {
                assert(rest.skip(first_comma(rest) + 1) =~= text.skip(first_comma(text) + 1));
            }
        }
    }
}

/// A text has one field more than it has commas.
pub proof fn lemma_field_count(text: Seq<u8>)
    ensures
        spec_split(text).len() == comma_count(text) + 1,
    decreases text.len(),
{
    let end = first_comma(text);
    lemma_first_comma_found(text);
    lemma_comma_count_behind_first(text);
    if end < text.len() {
        lemma_field_count(text.skip(end + 1));
    }
}

/// Each field of well-formed UTF-8 text is well-formed UTF-8 itself.
pub proof fn lemma_fields_are_utf8(text: Seq<u8>)
    requires
        valid_utf8(text),
    ensures
        forall|i: int| 0 <= i < spec_split(text).len() ==> valid_utf8(#[trigger] spec_split(text)[i]),
    decreases text.len(),
{
    let end = first_comma(text);
    lemma_first_comma_found(text);
    if end < text.len() {
        let behind = text.skip(end + 1);
        vstd::utf8::is_char_boundary_iff_not_is_continuation_byte(text, end);
        vstd::utf8::valid_utf8_split(text, end);
        let from_comma = text.subrange(end, text.len() as int);
        assert(from_comma[0] == 0x2c);
        assert(vstd::utf8::pop_first_scalar(from_comma) =~= behind);
        assert(text.take(end) =~= text.subrange(0, end));
        lemma_fields_are_utf8(behind);
        assert forall|i: int| 0 <= i < spec_split(text).len() implies valid_utf8(
            #[trigger] spec_split(text)[i],
        ) by {
            if i > 0 {
                assert(spec_split(text)[i] == spec_split(behind)[i - 1]);
            }
        }
    }
}

/// Splits `text` at its commas.
pub fn split_fields(text: &[u8]) -> (fields: Vec<Vec<u8>>)
    ensures
        fields.deep_view() == spec_split(text@),
{
    let n: usize = text.len();
    let mut fields: Vec<Vec<u8>> = Vec::new();
    let mut start: usize = 0;
    let mut i: usize = 0;
    assert(text@.skip(0) =~= text@);
    assert(fields.deep_view() =~= Seq::<Seq<u8>>::empty());
    while i < n
        invariant
            start <= i <= n,
            n == text@.len(),
            forall|k: int| start <= k < i ==> text@[k] != 0x2c,
            spec_split(text@) == fields.deep_view() + spec_split(text@.skip(start as int)),
        decreases n - i,
    {
        if text[i] == COMMA {
            let field: Vec<u8> = slice_to_vec(slice_subrange(text, start, i));
            proof {
                let tail = text@.skip(start as int);
                lemma_first_comma(tail, i - start);
                assert(tail.take(i - start) =~= field@);
                assert(tail.skip(i - start + 1) =~= text@.skip(i + 1));
                assert(fields.deep_view().push(field@) + spec_split(text@.skip(i + 1))
                    =~= fields.deep_view() + spec_split(tail));
            }
            let ghost before = fields.deep_view();
            fields.push(field);
            assert(fields.deep_view() =~~= before.push(field@));
            start = i + 1;
        }
        i = i + 1;
    }
    let field: Vec<u8> = slice_to_vec(slice_subrange(text, start, n));
    proof {
        let tail = text@.skip(start as int);
        lemma_first_comma(tail, n - start);
        assert(tail =~= field@);
    }
    let ghost before = fields.deep_view();
    fields.push(field);
    assert(fields.deep_view() =~~= before.push(field@));
    fields
}

/// A decoded condition: the three fields that a request must carry.
#[derive(Clone, Debug, PartialEq, Eq)]
pub struct Condition {
    /// The first field, which routing does not read.
    pub unused: Vec<u8>,
    /// The name of the logical table.
    pub logic_table: Vec<u8>,
    /// The value of the sharding column.
    pub column_value: u8,
}

/// What a `Condition` holds, as mathematical values.
pub struct ConditionView {
    pub unused: Seq<u8>,
    pub logic_table: Seq<u8>,
    pub column_value: u8,
}

impl View for Condition {
    type V = ConditionView;

    open spec fn view(&self) -> ConditionView {
        ConditionView {
            unused: self.unused@,
            logic_table: self.logic_table@,
            column_value: self.column_value,
        }
    }
}

/// What a condition segment decodes to. The text must be well-formed UTF-8
/// and have at least three fields, the third of which is an 8-bit decimal
/// number; fields after the third are ignored.
pub open spec fn spec_decode_condition(text: Seq<u8>) -> Result<ConditionView, ShardError> {
    let fields = spec_split(text);
    if !valid_utf8(text) {
        Err(ShardError::InvalidUtf8)
    } else if fields.len() < 3 {
        Err(ShardError::MissingField)
    } else {
        match spec_parse_u8(fields[2]) {
            None => Err(ShardError::InvalidColumnValue),
            Some(column_value) => Ok(
                ConditionView { unused: fields[0], logic_table: fields[1], column_value },
            ),
        }
    }
}

/// Well-formed text with fewer than three fields, that is, with fewer than
/// two commas, is refused for its missing field, whatever the fields hold.
pub proof fn lemma_too_few_fields(text: Seq<u8>)
    requires
        valid_utf8(text),
        spec_split(text).len() < 3 || comma_count(text) < 2,
    ensures
        spec_decode_condition(text) == Err::<ConditionView, ShardError>(ShardError::MissingField),
{
    lemma_field_count(text);
}

/// Decodes a condition segment.
pub fn decode_condition(text: &[u8]) -> (outcome: Result<Condition, ShardError>)
    ensures
        match outcome {
            Ok(condition) => spec_decode_condition(text@) == Ok::<ConditionView, ShardError>(
                condition@,
            ),
            Err(error) => spec_decode_condition(text@) == Err::<ConditionView, ShardError>(error),
        },
{
    if !is_valid_utf8(text) {
        return Err(ShardError::InvalidUtf8);
    }
    let fields: Vec<Vec<u8>> = split_fields(text);
    if fields.len() < 3 {
        return Err(ShardError::MissingField);
    }
    proof {
        let views = fields.deep_view();
        assert(views[0] =~= fields@[0]@);
        assert(views[1] =~= fields@[1]@);
        assert(views[2] =~= fields@[2]@);
    }
    match parse_u8(fields[2].as_slice()) {
        None => Err(ShardError::InvalidColumnValue),
        Some(column_value) => {
            let unused: Vec<u8> = slice_to_vec(fields[0].as_slice());
            let logic_table: Vec<u8> = slice_to_vec(fields[1].as_slice());
            Ok(Condition { unused, logic_table, column_value })
        },
    }
}

} // verus!
