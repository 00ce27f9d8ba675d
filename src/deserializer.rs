//! Binding records to typed shapes: a cursor over the decoded values of the
//! current record that a shape reads field by field or by name.
use vstd::prelude::*;

use crate::error::{DeserializeError, NoSuchFieldError};
use crate::field::{FieldInfo, FieldType};
use crate::parser::FieldValue;

verus! {

/// The decoded values of the current record, the field that a binding reads
/// next, and the ordinal of the record.
pub struct DbfDeserializer {
    fields: Vec<FieldInfo>,
    values: Vec<FieldValue>,
    current_index: usize,
    record_count: usize,
}

impl DbfDeserializer {
    /// The table's fields.
    pub closed spec fn fields_spec(&self) -> Seq<FieldInfo> {
        self.fields@
    }

    /// The values of the current record.
    pub closed spec fn values_spec(&self) -> Seq<FieldValue> {
        self.values@
    }

    /// Index of the field read next.
    pub closed spec fn index(&self) -> int {
        self.current_index as int
    }

    /// Number of records handed over so far.
    pub closed spec fn records(&self) -> int {
        self.record_count as int
    }

    /// The values match the fields one to one.
    pub closed spec fn wf(&self) -> bool {
        &&& self.values@.len() == 0 || self.values@.len() == self.fields@.len()
        &&& self.current_index <= self.values@.len()
    }

    /// A cursor over records of the given fields, before the first record.
    pub fn new(fields: Vec<FieldInfo>) -> (r: Self)
        ensures
            r.wf(),
            r.fields_spec() == fields@,
            r.values_spec().len() == 0,
            r.index() == 0,
            r.records() == 0,
    {
        DbfDeserializer { fields, values: Vec::new(), current_index: 0, record_count: 0 }
    }

    /// The table's fields.
    pub fn fields(&self) -> (r: &Vec<FieldInfo>)
        ensures
            r@ == self.fields_spec(),
    {
        &self.fields
    }

    /// Number of fields of a record.
    pub fn field_count(&self) -> (r: usize)
        ensures
            r == self.fields_spec().len(),
    {
        self.fields.len()
    }

    /// Hands over the values of the next record and moves to its first field.
    pub fn set_values(&mut self, values: Vec<FieldValue>)
        requires
            values@.len() == old(self).fields_spec().len(),
        ensures
            final(self).wf(),
            final(self).fields_spec() == old(self).fields_spec(),
            final(self).values_spec() == values@,
            final(self).index() == 0,
            final(self).records() == if old(self).records() < usize::MAX {
                old(self).records() + 1
            } else {
                old(self).records()
            },
    {
        self.values = values;
        self.current_index = 0;
        if self.record_count < usize::MAX {
            self.record_count = self.record_count + 1;
        }
    }

    /// Moves back to the first field of the current record.
    pub fn reset_index(&mut self)
        requires
            old(self).wf(),
        ensures
            final(self).wf(),
            final(self).fields_spec() == old(self).fields_spec(),
            final(self).values_spec() == old(self).values_spec(),
            final(self).records() == old(self).records(),
            final(self).index() == 0,
    {
        self.current_index = 0;
    }

    /// Tells whether a field of the current record is left to read.
    pub fn has_next_field(&self) -> (r: bool)
        ensures
            r == (self.index() < self.values_spec().len()),
    {
        self.current_index < self.values.len()
    }

    /// The type of the field read next, if any is left.
    pub fn peek_field(&self) -> (r: Option<FieldType>)
        requires
            self.wf(),
        ensures
            self.index() < self.values_spec().len() ==> r == Some(
                self.fields_spec()[self.index()].field_type,
            ),
            self.index() >= self.values_spec().len() ==> r is None,
    {
        if self.current_index < self.values.len() {
            Some(self.fields[self.current_index].field_type)
        } else {
            None
        }
    }

    /// The value read next, if any is left.
    pub fn peek_value(&self) -> (r: Option<&FieldValue>)
        ensures
            self.index() < self.values_spec().len() ==> r is Some && *r->Some_0
                == self.values_spec()[self.index()],
            self.index() >= self.values_spec().len() ==> r is None,
    {
        if self.current_index < self.values.len() {
            Some(&self.values[self.current_index])
        } else {
            None
        }
    }

    /// Whether the value read next is null, if any is left.
    pub fn is_next_value_null(&self) -> (r: Option<bool>)
        ensures
            self.index() < self.values_spec().len() ==> r == Some(
                self.values_spec()[self.index()]@ is Null,
            ),
            self.index() >= self.values_spec().len() ==> r is None,
    {
        if self.current_index < self.values.len() {
            Some(self.values[self.current_index].is_null())
        } else {
            None
        }
    }

    /// Reads the next value of the current record and moves past it.
    pub fn next_value(&mut self) -> (r: Option<FieldValue>)
        requires
            old(self).wf(),
        ensures
            final(self).wf(),
            final(self).fields_spec() == old(self).fields_spec(),
            final(self).values_spec() == old(self).values_spec(),
            final(self).records() == old(self).records(),
            old(self).index() < old(self).values_spec().len() ==> r is Some && r->Some_0@
                == old(self).values_spec()[old(self).index()]@ && final(self).index() == old(
                self,
            ).index() + 1,
            old(self).index() >= old(self).values_spec().len() ==> r is None && final(self).index()
                == old(self).index(),
    {
        if self.current_index < self.values.len() {
            let v = self.values[self.current_index].copy_value();
            self.current_index = self.current_index + 1;
            Some(v)
        } else {
            None
        }
    }

    /// Index of the field named `name`: the first one, if several share it.
    fn field_index(&self, name: &str) -> (r: Option<usize>)
        ensures
            r is Some ==> r->Some_0 < self.fields_spec().len() && self.fields_spec()[r->Some_0 as int].name@
                == name@ && forall|j: int| 0 <= j < r->Some_0 ==> #[trigger] self.fields_spec()[j].name@ != name@,
            r is None ==> forall|j: int| 0 <= j < self.fields_spec().len() ==> #[trigger] self.fields_spec()[j].name@ != name@,
    {
        let wanted = name.to_owned();
        let mut i: usize = 0;
        while i < self.fields.len()
            invariant
                0 <= i <= self.fields@.len(),
                wanted@ == name@,
                forall|j: int| 0 <= j < i ==> #[trigger] self.fields@[j].name@ != name@,
            decreases self.fields@.len() - i,
        {
            if self.fields[i].name == wanted {
                return Some(i);
            }
            i = i + 1;
        }
        None
    }

    /// Moves to the field named `name`, so that the next value read is its.
    pub fn set_field_with_name(&mut self, name: &str) -> (r: Result<(), NoSuchFieldError>)
        requires
            old(self).wf(),
        ensures
            final(self).fields_spec() == old(self).fields_spec(),
            final(self).values_spec() == old(self).values_spec(),
            final(self).records() == old(self).records(),
            r is Err <==> forall|j: int|
                0 <= j < old(self).fields_spec().len() ==> #[trigger] old(self).fields_spec()[j].name@
                    != name@,
            r is Err ==> r->Err_0.field@ == name@ && final(self).index() == old(self).index(),
            r is Ok ==> {
                let k = final(self).index();
                &&& 0 <= k < old(self).fields_spec().len()
                &&& old(self).fields_spec()[k].name@ == name@
                &&& forall|j: int| 0 <= j < k ==> #[trigger] old(self).fields_spec()[j].name@ != name@
            },
            old(self).values_spec().len() > 0 ==> final(self).wf(),
    {
        match self.field_index(name) {
            Some(i) => {
                self.current_index = i;
                Ok(())
            },
            None => Err(NoSuchFieldError::new(name)),
        }
    }

    /// Name of the field read last.
    fn last_field_name(&self) -> (r: &str)
        requires
            self.wf(),
            0 < self.index(),
        ensures
            r@ == self.fields_spec()[self.index() - 1].name@,
    {
        self.fields[self.current_index - 1].name.as_str()
    }

    /// The field read last holds a value of another type than `field_type`.
    pub fn error_expected(&self, field_type: FieldType) -> (r: DeserializeError)
        requires
            self.wf(),
            0 < self.index(),
        ensures
            r.code == crate::error::ErrorCode::Expected(field_type),
            r.record == self.records(),
            r.field@ == self.fields_spec()[self.index() - 1].name@,
    {
        DeserializeError::expected(field_type, self.record_count, self.last_field_name())
    }

    /// The field read last is null where a value was asked for.
    pub fn error_unexpected_null(&self) -> (r: DeserializeError)
        requires
            self.wf(),
            0 < self.index(),
        ensures
            r.code is UnexpectedNull,
            r.record == self.records(),
            r.field@ == self.fields_spec()[self.index() - 1].name@,
    {
        DeserializeError::unexpected_null(self.record_count, self.last_field_name())
    }

    /// The field read last holds a value where null was asked for.
    pub fn error_expected_null(&self) -> (r: DeserializeError)
        requires
            self.wf(),
            0 < self.index(),
        ensures
            r.code is ExpectedNull,
            r.record == self.records(),
            r.field@ == self.fields_spec()[self.index() - 1].name@,
    {
        DeserializeError::expected_null(self.record_count, self.last_field_name())
    }

    /// The field read last could not be decoded.
    pub fn error_field_parse(&self) -> (r: DeserializeError)
        requires
            self.wf(),
            0 < self.index(),
        ensures
            r.code is FieldParse,
            r.record == self.records(),
            r.field@ == self.fields_spec()[self.index() - 1].name@,
    {
        DeserializeError::field_parse(self.record_count, self.last_field_name())
    }

    /// A tuple of `length` values was asked of a record.
    pub fn error_tuple_length(&self, length: usize) -> (r: DeserializeError)
        ensures
            r.code == crate::error::ErrorCode::TupleLength(length, self.fields_spec().len() as usize),
    {
        DeserializeError::tuple_length(length, self.fields.len())
    }

    /// More fields were asked for than the record has.
    pub fn error_end_of_record(&self) -> (r: DeserializeError)
        ensures
            r.code is UnexpectedEndOfRecord,
    {
        DeserializeError::unexpected_end_of_record()
    }

    /// A memo field was met with no memo file attached.
    pub fn error_missing_memo_file(&self) -> (r: DeserializeError)
        ensures
            r.code is MissingMemoFile,
    {
        DeserializeError::missing_memo_file()
    }
}

/// The parts of a date, handed out one at a time: year, month, day.
pub struct DateAccess {
    year: Option<u16>,
    month: Option<u8>,
    day: Option<u8>,
}

impl DateAccess {
    /// The parts not yet handed out, in order.
    pub closed spec fn remaining(&self) -> Seq<u16> {
        (if self.year is Some { seq![self.year->Some_0] } else { Seq::empty() })
            + (if self.month is Some { seq![self.month->Some_0 as u16] } else { Seq::empty() })
            + (if self.day is Some { seq![self.day->Some_0 as u16] } else { Seq::empty() })
    }

    pub fn new(year: u16, month: u8, day: u8) -> (r: Self)
        ensures
            r.remaining() == seq![year, month as u16, day as u16],
    {
        DateAccess { year: Some(year), month: Some(month), day: Some(day) }
    }

    /// Hands out the next part, if any is left.
    pub fn next_element(&mut self) -> (r: Option<u16>)
        ensures
            old(self).remaining().len() == 0 ==> r is None && final(self).remaining().len() == 0,
            old(self).remaining().len() > 0 ==> r == Some(old(self).remaining()[0])
                && final(self).remaining() == old(self).remaining().drop_first(),
    {
        if let Some(v) = self.year.take() {
            assert(self.remaining() =~= old(self).remaining().drop_first());
            Some(v)
        } else if let Some(v) = self.month.take() {
            assert(self.remaining() =~= old(self).remaining().drop_first());
            Some(v as u16)
        } else if let Some(v) = self.day.take() {
            assert(self.remaining() =~= old(self).remaining().drop_first());
            Some(v as u16)
        } else {
            None
        }
    }
}

/// The parts of a timestamp, handed out one at a time: year, month, day,
/// hour, minute, second.
pub struct TimestampAccess {
    date: DateAccess,
    hour: Option<u8>,
    minute: Option<u8>,
    second: Option<u8>,
}

impl TimestampAccess {
    /// The parts not yet handed out, in order.
    pub closed spec fn remaining(&self) -> Seq<u16> {
        self.date.remaining() + (if self.hour is Some { seq![self.hour->Some_0 as u16] } else { Seq::empty() })
            + (if self.minute is Some { seq![self.minute->Some_0 as u16] } else { Seq::empty() })
            + (if self.second is Some { seq![self.second->Some_0 as u16] } else { Seq::empty() })
    }

    pub fn new(year: u16, month: u8, day: u8, hour: u8, minute: u8, second: u8) -> (r: Self)
        ensures
            r.remaining() == seq![year, month as u16, day as u16, hour as u16, minute as u16, second as u16],
    {
        let r = TimestampAccess {
            date: DateAccess::new(year, month, day),
            hour: Some(hour),
            minute: Some(minute),
            second: Some(second),
        };
        assert(r.remaining() =~= seq![year, month as u16, day as u16, hour as u16, minute as u16, second as u16]);
        r
    }

    /// Hands out the next part, if any is left.
    pub fn next_element(&mut self) -> (r: Option<u16>)
        ensures
            old(self).remaining().len() == 0 ==> r is None && final(self).remaining().len() == 0,
            old(self).remaining().len() > 0 ==> r == Some(old(self).remaining()[0])
                && final(self).remaining() == old(self).remaining().drop_first(),
    {
        if let Some(v) = self.date.next_element() {
            assert(self.remaining() =~= old(self).remaining().drop_first());
            Some(v)
        } else if let Some(v) = self.hour.take() {
            assert(self.remaining() =~= old(self).remaining().drop_first());
            Some(v as u16)
        } else if let Some(v) = self.minute.take() {
            assert(self.remaining() =~= old(self).remaining().drop_first());
            Some(v as u16)
        } else if let Some(v) = self.second.take() {
            assert(self.remaining() =~= old(self).remaining().drop_first());
            Some(v as u16)
        } else {
            None
        }
    }
}

} // verus!
