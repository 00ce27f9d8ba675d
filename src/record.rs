//! Decoding a whole record frame, and the layout of the fields in it.
use vstd::prelude::*;

use crate::error::{FieldParseError, ParseCause};
use crate::field::FieldInfo;
use crate::memo::MemoReader;
use crate::parser::{decode, field_bytes, parse_field, FieldValue, ValueModel};

verus! {

/// Each field starts where the one before it ends, and the first one right
/// after the deletion mark.
pub open spec fn fields_chained(fields: Seq<FieldInfo>) -> bool {
    &&& fields.len() > 0 ==> fields[0].offset == 1
    &&& forall|i: int|
        0 < i < fields.len() ==> #[trigger] fields[i].offset == fields[i - 1].offset
            + fields[i - 1].length
}

/// Where the last field ends: the record length that the fields call for.
pub open spec fn fields_end(fields: Seq<FieldInfo>) -> int {
    if fields.len() == 0 {
        1
    } else {
        fields.last().offset + fields.last().length
    }
}

/// Sum of the lengths of the fields.
pub open spec fn sum_lengths(fields: Seq<FieldInfo>) -> int
    decreases fields.len(),
{
    if fields.len() == 0 {
        0
    } else {
        sum_lengths(fields.drop_last()) + fields.last().length
    }
}

/// Chained fields end one byte after the sum of their lengths.
pub proof fn lemma_fields_end_is_sum(fields: Seq<FieldInfo>)
    requires
        fields_chained(fields),
    ensures
        fields_end(fields) == 1 + sum_lengths(fields),
    decreases fields.len(),
{
    if fields.len() > 0 {
        let init = fields.drop_last();
        assert(fields_chained(init)) by {
            assert forall|i: int| 0 < i < init.len() implies #[trigger] init[i].offset == init[i
                - 1].offset + init[i - 1].length by {
                assert(init[i] == fields[i]);
            }
        }
        lemma_fields_end_is_sum(init);
    }
}

/// An earlier field of a chained table ends no later than a later one starts.
pub proof fn lemma_chained_ordered(fields: Seq<FieldInfo>, i: int, j: int)
    requires
        fields_chained(fields),
        0 <= i < j < fields.len(),
    ensures
        fields[i].offset + fields[i].length <= fields[j].offset,
    decreases j - i,
{
    if j > i + 1 {
        lemma_chained_ordered(fields, i, j - 1);
        assert(fields[j].offset == fields[j - 1].offset + fields[j - 1].length);
    } else {
        assert(fields[j].offset == fields[j - 1].offset + fields[j - 1].length);
    }
}

/// Every field of a chained table lies inside a record of the length that
/// the fields call for.
pub proof fn lemma_chained_in_bounds(fields: Seq<FieldInfo>)
    requires
        fields_chained(fields),
    ensures
        forall|i: int|
            0 <= i < fields.len() ==> #[trigger] fields[i].offset + fields[i].length
                <= fields_end(fields),
{
    assert forall|i: int| 0 <= i < fields.len() implies #[trigger] fields[i].offset
        + fields[i].length <= fields_end(fields) by {
        if i < fields.len() - 1 {
            lemma_chained_ordered(fields, i, fields.len() - 1);
        }
    }
}

/// Every field lies inside a record `rec`.
pub open spec fn fields_fit(fields: Seq<FieldInfo>, rec: Seq<u8>) -> bool {
    forall|i: int| 0 <= i < fields.len() ==> #[trigger] fields[i].offset + fields[i].length <= rec.len()
}

/// Every field of `rec` decodes.
pub open spec fn record_decodes(fields: Seq<FieldInfo>, rec: Seq<u8>, memo: Option<&MemoReader>) -> bool {
    forall|i: int| 0 <= i < fields.len() ==> #[trigger] decode(fields[i].field_type, field_bytes(fields[i], rec), memo) is Ok
}

/// `values` are the decoded fields of `rec`, in field order.
pub open spec fn record_values(
    fields: Seq<FieldInfo>,
    rec: Seq<u8>,
    memo: Option<&MemoReader>,
    values: Seq<FieldValue>,
) -> bool {
    &&& values.len() == fields.len()
    &&& forall|i: int|
        0 <= i < fields.len() ==> decode(fields[i].field_type, field_bytes(fields[i], rec), memo)
            == Ok::<ValueModel, ParseCause>(#[trigger] values[i]@)
}

/// `e` is the error of the first field of `rec` that does not decode.
pub open spec fn record_error(
    fields: Seq<FieldInfo>,
    rec: Seq<u8>,
    memo: Option<&MemoReader>,
    e: FieldParseError,
) -> bool {
    exists|k: int|
        {
            &&& 0 <= k < fields.len()
            &&& forall|j: int|
                0 <= j < k ==> #[trigger] decode(fields[j].field_type, field_bytes(fields[j], rec), memo) is Ok
            &&& decode(fields[k].field_type, field_bytes(fields[k], rec), memo) is Err
            &&& e.field_name@ == fields[k].name@
            &&& e.field_type == fields[k].field_type
            &&& e.cause == Some(decode(fields[k].field_type, field_bytes(fields[k], rec), memo)->Err_0)
        }
}

/// Decodes every field of the record `buf`, in field order; stops at the
/// first field that does not decode.
pub fn parse_record(fields: &Vec<FieldInfo>, buf: &[u8], memo: Option<&MemoReader>) -> (r: Result<
    Vec<FieldValue>,
    FieldParseError,
>)
    requires
        fields_fit(fields@, buf@),
    ensures
        r is Ok <==> record_decodes(fields@, buf@, memo),
        r is Ok ==> record_values(fields@, buf@, memo, r->Ok_0@),
        r is Err ==> record_error(fields@, buf@, memo, r->Err_0),
{
    let mut values: Vec<FieldValue> = Vec::with_capacity(fields.len());
    let mut i: usize = 0;
    while i < fields.len()
        invariant
            0 <= i <= fields@.len(),
            fields_fit(fields@, buf@),
            values@.len() == i,
            forall|j: int|
                0 <= j < i ==> decode(fields@[j].field_type, field_bytes(fields@[j], buf@), memo)
                    == Ok::<ValueModel, ParseCause>(#[trigger] values@[j]@),
        decreases fields@.len() - i,
    {
        assert(fields@[i as int].offset + fields@[i as int].length <= buf@.len());
        match parse_field(&fields[i], buf, memo) {
            Ok(v) => {
                values.push(v);
            },
            Err(e) => {
                assert forall|j: int| 0 <= j < i implies #[trigger] decode(
                    fields@[j].field_type,
                    field_bytes(fields@[j], buf@),
                    memo,
                ) is Ok by {
                    assert(decode(fields@[j].field_type, field_bytes(fields@[j], buf@), memo)
                        == Ok::<ValueModel, ParseCause>(values@[j]@));
                }
                assert(!record_decodes(fields@, buf@, memo));
                return Err(e);
            },
        }
        i = i + 1;
    }
    assert forall|j: int| 0 <= j < fields@.len() implies #[trigger] decode(
        fields@[j].field_type,
        field_bytes(fields@[j], buf@),
        memo,
    ) is Ok by {
        assert(decode(fields@[j].field_type, field_bytes(fields@[j], buf@), memo) == Ok::<
            ValueModel,
            ParseCause,
        >(values@[j]@));
    }
    Ok(values)
}

} // verus!
