//! The dynamic value stream: each live record as field names paired with
//! decoded values, in field order.
use vstd::prelude::*;

use crate::error::{DbfError, ParseCause};
use crate::field::FieldInfo;
use crate::parser::{decode, field_bytes, FieldValue, ValueModel};
use crate::reader::{frame_at, live_frames, memo_ref, skip_deleted, DbfReader};
use crate::record::{record_decodes, record_error};

verus! {

/// Walks the live records of a table, once.
pub struct ValuesIterator {
    reader: DbfReader,
}

/// `pairs` name each decoded field of the record `rec`, in field order.
pub open spec fn named_values(
    fields: Seq<FieldInfo>,
    rec: Seq<u8>,
    memo: Option<&crate::memo::MemoReader>,
    pairs: Seq<(String, FieldValue)>,
) -> bool {
    &&& pairs.len() == fields.len()
    &&& forall|i: int|
        0 <= i < fields.len() ==> (#[trigger] pairs[i]).0@ == fields[i].name@ && decode(
            fields[i].field_type,
            field_bytes(fields[i], rec),
            memo,
        ) == Ok::<ValueModel, ParseCause>(pairs[i].1@)
}

impl ValuesIterator {
    /// The table being walked.
    pub closed spec fn reader(&self) -> DbfReader {
        self.reader
    }

    /// Starts walking the records of an open table from where it stands.
    pub fn new(reader: DbfReader) -> (r: Self)
        ensures
            r.reader() == reader,
    {
        ValuesIterator { reader }
    }

    /// The next live record, its values named after their fields; `None`
    /// once the records are exhausted.
    pub fn next(&mut self) -> (r: Option<Result<Vec<(String, FieldValue)>, DbfError>>)
        requires
            old(self).reader().wf(),
        ensures
            final(self).reader().wf(),
            final(self).reader().data() == old(self).reader().data(),
            final(self).reader().header_spec() == old(self).reader().header_spec(),
            final(self).reader().fields_spec() == old(self).reader().fields_spec(),
            final(self).reader().memo() == old(self).reader().memo(),
            ({
                let t = old(self).reader();
                let d = t.data();
                let rl = t.header_spec().record_length as int;
                let fields = t.fields_spec();
                let memo = memo_ref(&t.memo());
                let stop = skip_deleted(d, rl, t.position());
                let rec = d.subrange(stop, stop + rl);
                &&& live_frames(d, rl, t.position()) == (if frame_at(d, rl, stop) is Live {
                    seq![rec]
                } else {
                    Seq::empty()
                }) + live_frames(d, rl, final(self).reader().position())
                &&& !(frame_at(d, rl, stop) is Deleted)
                &&& frame_at(d, rl, stop) is End ==> r is None
                &&& frame_at(d, rl, stop) is Short ==> r is Some && r->Some_0 is Err
                    && r->Some_0->Err_0 is Io
                &&& frame_at(d, rl, stop) is Live ==> {
                    &&& r is Some
                    &&& r->Some_0 is Ok <==> record_decodes(fields, rec, memo)
                    &&& r->Some_0 is Ok ==> named_values(fields, rec, memo, r->Some_0->Ok_0@)
                    &&& r->Some_0 is Err ==> r->Some_0->Err_0 is FieldParse && record_error(
                        fields,
                        rec,
                        memo,
                        r->Some_0->Err_0->FieldParse_0,
                    )
                }
            }),
    {
        let values = match self.reader.next_record() {
            Ok(Some(v)) => v,
            Ok(None) => {
                return None;
            },
            Err(e) => {
                return Some(Err(e));
            },
        };
        let fields = self.reader.fields();
        let mut pairs: Vec<(String, FieldValue)> = Vec::with_capacity(values.len());
        let mut i: usize = 0;
        while i < values.len()
            invariant
                fields@ == self.reader.fields_spec(),
                values@.len() == fields@.len(),
                0 <= i <= values@.len(),
                pairs@.len() == i,
                forall|j: int|
                    0 <= j < i ==> (#[trigger] pairs@[j]).0@ == fields@[j].name@ && pairs@[j].1@
                        == values@[j]@,
            decreases values@.len() - i,
        {
            pairs.push((fields[i].name.clone(), values[i].copy_value()));
            i = i + 1;
        }
        Some(Ok(pairs))
    }
}

} // verus!
