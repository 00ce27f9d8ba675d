//! Field types, field descriptors and the descriptor table.
use vstd::prelude::*;

use crate::bytes::{copy_range, push_char};
use crate::error::UnsupportedFieldTypeError;
use crate::record::fields_chained;

verus! {

/// The declared type of a field.
#[derive(Debug, Clone, Copy, PartialEq, Eq, Structural)]
pub enum FieldType {
    Logical,
    Character,
    Integer,
    Numeric,
    Float,
    Date,
    Timestamp,
    Memo,
    Binary,
    General,
}

/// The field type that a descriptor's type character names, if any.
pub open spec fn field_type_of(c: u8) -> Option<FieldType> {
    if c == 0x42 {
        Some(FieldType::Binary)
    } else if c == 0x43 {
        Some(FieldType::Character)
    } else if c == 0x44 {
        Some(FieldType::Date)
    } else if c == 0x46 {
        Some(FieldType::Float)
    } else if c == 0x47 {
        Some(FieldType::General)
    } else if c == 0x49 {
        Some(FieldType::Integer)
    } else if c == 0x4C {
        Some(FieldType::Logical)
    } else if c == 0x4D {
        Some(FieldType::Memo)
    } else if c == 0x4E {
        Some(FieldType::Numeric)
    } else if c == 0x54 {
        Some(FieldType::Timestamp)
    } else {
        None
    }
}

impl FieldType {
    /// Maps a type character to its field type.
    pub fn try_from(value: u8) -> (r: Result<FieldType, UnsupportedFieldTypeError>)
        ensures
            match field_type_of(value) {
                Some(t) => r == Ok::<FieldType, UnsupportedFieldTypeError>(t),
                None => r == Err::<FieldType, UnsupportedFieldTypeError>(
                    UnsupportedFieldTypeError(value as char),
                ),
            },
    {
        match value {
            0x42 => Ok(FieldType::Binary),
            0x43 => Ok(FieldType::Character),
            0x44 => Ok(FieldType::Date),
            0x46 => Ok(FieldType::Float),
            0x47 => Ok(FieldType::General),
            0x49 => Ok(FieldType::Integer),
            0x4C => Ok(FieldType::Logical),
            0x4D => Ok(FieldType::Memo),
            0x4E => Ok(FieldType::Numeric),
            0x54 => Ok(FieldType::Timestamp),
            _ => Err(UnsupportedFieldTypeError(value as char)),
        }
    }

    /// The type's name, as in `"Character"`.
    pub fn name(&self) -> (r: &'static str)
        ensures
            r@ == field_type_name(*self),
    {
        match self {
            FieldType::Logical => "Logical",
            FieldType::Character => "Character",
            FieldType::Integer => "Integer",
            FieldType::Numeric => "Numeric",
            FieldType::Float => "Float",
            FieldType::Date => "Date",
            FieldType::Timestamp => "Timestamp",
            FieldType::Memo => "Memo",
            FieldType::Binary => "Binary",
            FieldType::General => "General",
        }
    }
}

/// The name under which a field type is shown.
pub open spec fn field_type_name(t: FieldType) -> Seq<char> {
    match t {
        FieldType::Logical => "Logical"@,
        FieldType::Character => "Character"@,
        FieldType::Integer => "Integer"@,
        FieldType::Numeric => "Numeric"@,
        FieldType::Float => "Float"@,
        FieldType::Date => "Date"@,
        FieldType::Timestamp => "Timestamp"@,
        FieldType::Memo => "Memo"@,
        FieldType::Binary => "Binary"@,
        FieldType::General => "General"@,
    }
}

/// One column of a table: its name, type, width and place in a record.
#[derive(Debug, Clone)]
pub struct FieldInfo {
    pub name: String,
    pub field_type: FieldType,
    pub length: usize,
    pub offset: usize,
}

/// Length of the part of `s` before its first nul byte.
pub open spec fn nul_position(s: Seq<u8>) -> int
    decreases s.len(),
{
    if s.len() == 0 || s[0] == 0 {
        0
    } else {
        1 + nul_position(s.drop_first())
    }
}

/// The name that nul-padded name bytes hold: the bytes before the first
/// nul, each as the character of the same code.
pub open spec fn name_of(name_bytes: Seq<u8>) -> Seq<char> {
    name_bytes.subrange(0, nul_position(name_bytes)).map_values(|x: u8| x as char)
}

impl FieldInfo {
    /// Builds a descriptor from its nul-padded name bytes and type character.
    pub fn new(name_bytes: &[u8], field_type: u8, length: usize, offset: usize) -> (r: Result<
        Self,
        UnsupportedFieldTypeError,
    >)
        ensures
            field_type_of(field_type).is_some() <==> r.is_ok(),
            r.is_err() ==> r == Err::<Self, UnsupportedFieldTypeError>(
                UnsupportedFieldTypeError(field_type as char),
            ),
            r.is_ok() ==> {
                let f = r.unwrap();
                &&& f.name@ == name_of(name_bytes@)
                &&& Some(f.field_type) == field_type_of(field_type)
                &&& f.length == length
                &&& f.offset == offset
            },
    {
        let mut k: usize = 0;
        assert(name_bytes@.subrange(0, name_bytes@.len() as int) =~= name_bytes@);
        while k < name_bytes.len() && name_bytes[k] != 0
            invariant
                0 <= k <= name_bytes@.len(),
                nul_position(name_bytes@) == k + nul_position(name_bytes@.subrange(k as int, name_bytes@.len() as int)),
            decreases name_bytes@.len() - k,
        {
            assert(name_bytes@.subrange(k as int, name_bytes@.len() as int).drop_first() =~= name_bytes@.subrange(k + 1, name_bytes@.len() as int));
            k = k + 1;
        }
        let mut name = String::new();
        let mut j: usize = 0;
        while j < k
            invariant
                0 <= j <= k <= name_bytes@.len(),
                name@ == name_bytes@.subrange(0, j as int).map_values(|x: u8| x as char),
            decreases k - j,
        {
            push_char(&mut name, name_bytes[j] as char);
            assert(name_bytes@.subrange(0, j + 1).map_values(|x: u8| x as char) =~= name_bytes@.subrange(
                0,
                j as int,
            ).map_values(|x: u8| x as char).push(name_bytes@[j as int] as char));
            j = j + 1;
        }
        let field_type = FieldType::try_from(field_type)?;
        Ok(FieldInfo { name, field_type, length, offset })
    }
}

/// Width in bytes of one entry of the descriptor table.
pub const FIELD_DESCRIPTOR_LENGTH: usize = 32;

/// Number of descriptors in `buf` from byte `start` on: complete 32-byte
/// entries up to the first one that begins with a carriage return.
pub open spec fn descriptors_from(buf: Seq<u8>, start: int) -> nat
    decreases buf.len() - start,
{
    if start < 0 || start + 32 > buf.len() || buf[start] == 0x0D {
        0
    } else {
        1 + descriptors_from(buf, start + 32)
    }
}

/// Number of descriptors in the table `buf`.
pub open spec fn descriptor_count(buf: Seq<u8>) -> nat {
    descriptors_from(buf, 0)
}

/// Name bytes of descriptor `i`.
pub open spec fn descriptor_name(buf: Seq<u8>, i: int) -> Seq<u8> {
    buf.subrange(32 * i, 32 * i + 11)
}

/// Type character of descriptor `i`.
pub open spec fn descriptor_type(buf: Seq<u8>, i: int) -> u8 {
    buf[32 * i + 11]
}

/// Field length of descriptor `i`.
pub open spec fn descriptor_length(buf: Seq<u8>, i: int) -> u8 {
    buf[32 * i + 16]
}

/// Record offset of field `i`: one for the deletion mark, then the lengths
/// of the fields before it.
pub open spec fn offset_before(buf: Seq<u8>, i: int) -> int
    decreases i,
{
    if i <= 0 {
        1
    } else {
        offset_before(buf, i - 1) + descriptor_length(buf, i - 1)
    }
}

/// Descriptor `i` of `buf` carries a known type character.
pub open spec fn descriptor_valid(buf: Seq<u8>, i: int) -> bool {
    field_type_of(descriptor_type(buf, i)).is_some()
}

/// `f` is what descriptor `i` of `buf` describes.
pub open spec fn descriptor_matches(f: FieldInfo, buf: Seq<u8>, i: int) -> bool {
    &&& f.name@ == name_of(descriptor_name(buf, i))
    &&& Some(f.field_type) == field_type_of(descriptor_type(buf, i))
    &&& f.length == descriptor_length(buf, i)
    &&& f.offset == offset_before(buf, i)
}

/// Each descriptor takes 32 bytes of the table.
pub proof fn lemma_descriptor_count_bound(buf: Seq<u8>, start: int)
    requires
        0 <= start <= buf.len(),
    ensures
        32 * descriptors_from(buf, start) <= buf.len() - start,
    decreases buf.len() - start,
{
    if start + 32 <= buf.len() && buf[start] != 0x0D {
        lemma_descriptor_count_bound(buf, start + 32);
    }
}

/// Field offsets grow by at most 255 per descriptor.
pub proof fn lemma_offset_before_bound(buf: Seq<u8>, i: int)
    requires
        0 <= i,
    ensures
        1 <= offset_before(buf, i) <= 1 + 255 * i,
    decreases i,
{
    if i > 0 {
        lemma_offset_before_bound(buf, i - 1);
    }
}

/// Reads the descriptor table that follows the 32-byte prologue; the table
/// ends before the header length, a 16-bit quantity.
pub fn read_field_info(buf: &[u8]) -> (r: Result<Vec<FieldInfo>, UnsupportedFieldTypeError>)
    requires
        buf@.len() <= 0xFFFF,
    ensures
        r.is_ok() <==> forall|i: int|
            0 <= i < descriptor_count(buf@) ==> #[trigger] descriptor_valid(buf@, i),
        r.is_ok() ==> r.unwrap()@.len() == descriptor_count(buf@),
        r.is_ok() ==> fields_chained(r.unwrap()@),
        r.is_ok() ==> forall|i: int|
            0 <= i < r.unwrap()@.len() ==> descriptor_matches(#[trigger] r.unwrap()@[i], buf@, i),
        r.is_err() ==> exists|k: int|
            {
                &&& 0 <= k < descriptor_count(buf@)
                &&& !descriptor_valid(buf@, k)
                &&& forall|j: int| 0 <= j < k ==> #[trigger] descriptor_valid(buf@, j)
                &&& r == Err::<Vec<FieldInfo>, UnsupportedFieldTypeError>(
                    UnsupportedFieldTypeError(descriptor_type(buf@, k) as char),
                )
            },
{
    let mut fields: Vec<FieldInfo> = Vec::new();
    let mut acc: usize = 1;
    let mut i: usize = 0;
    let mut start: usize = 0;
    while buf.len() - start >= FIELD_DESCRIPTOR_LENGTH && buf[start] != 0x0D
        invariant
            start == 32 * i,
            start <= buf@.len() <= 0xFFFF,
            descriptor_count(buf@) == i + descriptors_from(buf@, start as int),
            acc == offset_before(buf@, i as int),
            fields@.len() == i,
            forall|j: int| 0 <= j < i ==> #[trigger] descriptor_valid(buf@, j),
            forall|j: int| 0 <= j < i ==> descriptor_matches(#[trigger] fields@[j], buf@, j),
        decreases buf@.len() - start,
    {
        let name = copy_range(buf, start, start + 11);
        let field_type = buf[start + 11];
        let length = buf[start + 16] as usize;
        proof {
            lemma_offset_before_bound(buf@, i as int);
            assert(i < 2048);
            assert(acc + length <= 1 + 255 * 2048);
        }
        match FieldInfo::new(name.as_slice(), field_type, length, acc) {
            Ok(f) => {
                fields.push(f);
            },
            Err(e) => {
                assert(!descriptor_valid(buf@, i as int));
                return Err(e);
            },
        }
        assert(descriptor_valid(buf@, i as int));
        acc = acc + length;
        i = i + 1;
        start = start + FIELD_DESCRIPTOR_LENGTH;
    }
    assert(fields_chained(fields@)) by {
        if fields@.len() > 0 {
            assert(descriptor_matches(fields@[0], buf@, 0));
        }
        assert forall|j: int| 0 < j < fields@.len() implies #[trigger] fields@[j].offset
            == fields@[j - 1].offset + fields@[j - 1].length by {
            assert(descriptor_matches(fields@[j], buf@, j));
            assert(descriptor_matches(fields@[j - 1], buf@, j - 1));
        }
    }
    Ok(fields)
}

} // verus!
