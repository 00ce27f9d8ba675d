//! Decoding one field of a record into a typed value.
use vstd::prelude::*;

use crate::bytes::{
    all_digits, be_i32_at, lemma_decimal_bound, pow10, be_i32_of, copy_range, decimal_value, is_u32_numeral, le_u32_at,
    le_u32_of, utf8_text, parse_u32_decimal, text_of_range, trim_ascii, trim_bounds,
};
use crate::error::{FieldParseError, ParseCause};
use crate::field::{FieldInfo, FieldType};
use crate::memo::{memo_payload, MemoReader};

verus! {

/// The value of one field of a record.
#[derive(Debug, Clone, PartialEq)]
pub enum FieldValue {
    Binary(Vec<u8>),
    Character(String),
    Date(u16, u8, u8),
    /// The trimmed decimal text of a floating-point field.
    Float(String),
    General(Vec<u8>),
    Integer(i32),
    /// The trimmed decimal text of a numeric field.
    Numeric(String),
    Logical(bool),
    Memo(String),
    Timestamp(u16, u8, u8, u8, u8, u8),
    Null,
}

impl FieldValue {
    /// A copy of the value that owns its own text and bytes.
    pub fn copy_value(&self) -> (r: FieldValue)
        ensures
            r@ == self@,
    {
        match self {
            FieldValue::Binary(b) => {
                assert(b@.subrange(0, b@.len() as int) =~= b@);
                FieldValue::Binary(copy_range(b.as_slice(), 0, b.len()))
            },
            FieldValue::Character(s) => FieldValue::Character(s.clone()),
            FieldValue::Date(y, m, d) => FieldValue::Date(*y, *m, *d),
            FieldValue::Float(s) => FieldValue::Float(s.clone()),
            FieldValue::General(b) => {
                assert(b@.subrange(0, b@.len() as int) =~= b@);
                FieldValue::General(copy_range(b.as_slice(), 0, b.len()))
            },
            FieldValue::Integer(i) => FieldValue::Integer(*i),
            FieldValue::Numeric(s) => FieldValue::Numeric(s.clone()),
            FieldValue::Logical(b) => FieldValue::Logical(*b),
            FieldValue::Memo(s) => FieldValue::Memo(s.clone()),
            FieldValue::Timestamp(y, mo, d, h, mi, s) => FieldValue::Timestamp(*y, *mo, *d, *h, *mi, *s),
            FieldValue::Null => FieldValue::Null,
        }
    }

    /// Tells whether the value is null.
    pub fn is_null(&self) -> (r: bool)
        ensures
            r == (self@ is Null),
    {
        match self {
            FieldValue::Null => true,
            _ => false,
        }
    }
}

/// A field value with its text and bytes as sequences.
pub enum ValueModel {
    Binary(Seq<u8>),
    Character(Seq<char>),
    Date(u16, u8, u8),
    Float(Seq<char>),
    General(Seq<u8>),
    Integer(i32),
    Numeric(Seq<char>),
    Logical(bool),
    Memo(Seq<char>),
    Timestamp(u16, u8, u8, u8, u8, u8),
    Null,
}

impl View for FieldValue {
    type V = ValueModel;

    open spec fn view(&self) -> ValueModel {
        match self {
            FieldValue::Binary(b) => ValueModel::Binary(b@),
            FieldValue::Character(s) => ValueModel::Character(s@),
            FieldValue::Date(y, m, d) => ValueModel::Date(*y, *m, *d),
            FieldValue::Float(s) => ValueModel::Float(s@),
            FieldValue::General(b) => ValueModel::General(b@),
            FieldValue::Integer(i) => ValueModel::Integer(*i),
            FieldValue::Numeric(s) => ValueModel::Numeric(s@),
            FieldValue::Logical(b) => ValueModel::Logical(*b),
            FieldValue::Memo(s) => ValueModel::Memo(s@),
            FieldValue::Timestamp(y, mo, d, h, mi, s) => ValueModel::Timestamp(*y, *mo, *d, *h, *mi, *s),
            FieldValue::Null => ValueModel::Null,
        }
    }
}

/// The bytes of field `f` within record `rec`.
pub open spec fn field_bytes(f: FieldInfo, rec: Seq<u8>) -> Seq<u8> {
    rec.subrange(f.offset as int, f.offset + f.length)
}

/// Every byte is an ASCII space, or every byte is nul.
pub open spec fn is_blank(b: Seq<u8>) -> bool {
    (forall|i: int| 0 <= i < b.len() ==> b[i] == 0x20) || (forall|i: int|
        0 <= i < b.len() ==> b[i] == 0)
}

/// Value of a logical field whose first byte is `c`.
pub open spec fn logical_of(c: u8) -> ValueModel {
    if c == 0x54 || c == 0x74 || c == 0x59 || c == 0x79 {
        ValueModel::Logical(true)
    } else if c == 0x46 || c == 0x66 || c == 0x4E || c == 0x6E {
        ValueModel::Logical(false)
    } else {
        ValueModel::Null
    }
}

/// Calendar date `(year, month, day)` of a Julian Day Number.
pub open spec fn gregorian_of(j: int) -> (int, int, int) {
    let f = j + 1401 + (((4 * j + 274277) / 146097) * 3) / 4 - 38;
    let e = 4 * f + 3;
    let g = (e % 1461) / 4;
    let h = 5 * g + 2;
    let day = (h % 153) / 5 + 1;
    let month = (h / 153 + 2) % 12 + 1;
    let year = e / 1461 - 4716 + (12 + 2 - month) / 12;
    (year, month, day)
}

/// `(hour, minute, second)` of a count of milliseconds since midnight,
/// without the remaining milliseconds.
pub open spec fn time_of(ms: int) -> (int, int, int) {
    (ms / 3_600_000, (ms % 3_600_000) / 60_000, ((ms % 3_600_000) % 60_000) / 1000)
}

/// Block index that the bytes of a memo field hold: four bytes are a
/// little-endian integer, anything else a decimal numeral padded with
/// whitespace.
pub open spec fn memo_index_of(b: Seq<u8>) -> Option<u32> {
    if b.len() == 4 {
        Some(le_u32_of(b) as u32)
    } else if is_u32_numeral(trim_ascii(b)) {
        Some(decimal_value(trim_ascii(b)) as u32)
    } else {
        None
    }
}

/// Value of a date field of eight bytes `YYYYMMDD`.
pub open spec fn date_of(b: Seq<u8>) -> Result<ValueModel, ParseCause> {
    if b.len() != 8 {
        Err(ParseCause::Length)
    } else if !(all_digits(b) ) {
        Err(ParseCause::Numeral)
    } else {
        Ok(
            ValueModel::Date(
                decimal_value(b.subrange(0, 4)) as u16,
                decimal_value(b.subrange(4, 6)) as u8,
                decimal_value(b.subrange(6, 8)) as u8,
            ),
        )
    }
}

/// Value of a timestamp field: a Julian Day Number and a count of
/// milliseconds, both little-endian.
pub open spec fn timestamp_of(b: Seq<u8>) -> Result<ValueModel, ParseCause> {
    if b.len() != 8 {
        Err(ParseCause::Length)
    } else {
        let (y, mo, d) = gregorian_of(le_u32_of(b.subrange(0, 4)));
        let (h, mi, s) = time_of(le_u32_of(b.subrange(4, 8)));
        if !(0 <= y <= 0xFFFF) || h > 0xFF {
            Err(ParseCause::Range)
        } else {
            Ok(ValueModel::Timestamp(y as u16, mo as u8, d as u8, h as u8, mi as u8, s as u8))
        }
    }
}

/// Value of a memo, binary or general field, resolved through `memo`.
pub open spec fn memo_value_of(t: FieldType, b: Seq<u8>, memo: Option<&MemoReader>) -> Result<
    ValueModel,
    ParseCause,
> {
    match memo {
        None => Ok(ValueModel::Null),
        Some(m) => match memo_index_of(b) {
            None => Err(ParseCause::Numeral),
            Some(i) => match memo_payload(m.version(), m.block_size(), m.data(), i) {
                None => Err(ParseCause::MemoRead),
                Some(p) => Ok(
                    match t {
                        FieldType::Memo => ValueModel::Memo(utf8_text(p)),
                        FieldType::Binary => ValueModel::Binary(p),
                        _ => ValueModel::General(p),
                    },
                ),
            },
        },
    }
}

/// What a field of type `t` whose bytes are `b` decodes to.
#[verifier::opaque]
pub open spec fn decode(t: FieldType, b: Seq<u8>, memo: Option<&MemoReader>) -> Result<
    ValueModel,
    ParseCause,
> {
    if is_blank(b) {
        Ok(ValueModel::Null)
    } else {
        match t {
            FieldType::Logical => Ok(logical_of(b[0])),
            FieldType::Character => Ok(ValueModel::Character(utf8_text(trim_ascii(b)))),
            FieldType::Numeric => Ok(ValueModel::Numeric(utf8_text(trim_ascii(b)))),
            FieldType::Float => Ok(ValueModel::Float(utf8_text(trim_ascii(b)))),
            FieldType::Integer => if b.len() != 4 {
                Err(ParseCause::Length)
            } else {
                Ok(ValueModel::Integer(be_i32_of(b) as i32))
            },
            FieldType::Date => date_of(b),
            FieldType::Timestamp => timestamp_of(b),
            _ => memo_value_of(t, b, memo),
        }
    }
}

/// Tells whether the bytes of a field are all spaces or all nul.
pub fn is_blank_bytes(b: &[u8]) -> (r: bool)
    ensures
        r == is_blank(b@),
{
    let mut spaces = true;
    let mut nuls = true;
    let mut i: usize = 0;
    while i < b.len()
        invariant
            0 <= i <= b@.len(),
            spaces == (forall|k: int| 0 <= k < i ==> b@[k] == 0x20),
            nuls == (forall|k: int| 0 <= k < i ==> b@[k] == 0),
        decreases b@.len() - i,
    {
        if b[i] != 0x20 {
            spaces = false;
        }
        if b[i] != 0 {
            nuls = false;
        }
        i = i + 1;
    }
    spaces || nuls
}

/// Tells whether field `field` of the record `record_buf` is blank: all
/// spaces or all nul, which decodes to null whatever the field's type.
pub fn check_null(field: &FieldInfo, record_buf: &[u8]) -> (r: bool)
    requires
        field.offset + field.length <= record_buf@.len(),
    ensures
        r == is_blank(field_bytes(*field, record_buf@)),
{
    let n = record_buf.len();
    assert(field.offset + field.length <= n);
    let b = copy_range(record_buf, field.offset, field.offset + field.length);
    is_blank_bytes(b.as_slice())
}

/// Converts a Julian Day Number to a proleptic Gregorian `(year, month,
/// day)`; `None` where the year does not fit in a `u16`.
pub fn from_julian_day_to_gregorian_calender(julian_day: u32) -> (r: Option<(u16, u8, u8)>)
    ensures
        r is Some <==> 0 <= gregorian_of(julian_day as int).0 <= 0xFFFF,
        r is Some ==> r->Some_0.0 as int == gregorian_of(julian_day as int).0
            && r->Some_0.1 as int == gregorian_of(julian_day as int).1
            && r->Some_0.2 as int == gregorian_of(julian_day as int).2,
        r is Some ==> 1 <= r->Some_0.1 <= 12 && 1 <= r->Some_0.2 <= 31,
{
    let j = julian_day as u64;
    let f: u64 = j + 1401 + (((4 * j + 274277) / 146097) * 3) / 4 - 38;
    let e: u64 = 4 * f + 3;
    let g: u64 = (e % 1461) / 4;
    let h: u64 = 5 * g + 2;
    let day: u64 = (h % 153) / 5 + 1;
    let month: u64 = (h / 153 + 2) % 12 + 1;
    let shifted: u64 = e / 1461 + (12 + 2 - month) / 12;
    if shifted < 4716 || shifted - 4716 > 0xFFFF {
        return None;
    }
    Some(((shifted - 4716) as u16, month as u8, day as u8))
}

/// Splits milliseconds since midnight into `(hour, minute, second)`,
/// dropping the remaining milliseconds; `None` where the hour does not fit
/// in a `u8`.
pub fn from_time_part_to_time(time_part: u32) -> (r: Option<(u8, u8, u8)>)
    ensures
        r is Some <==> time_of(time_part as int).0 <= 0xFF,
        r is Some ==> r->Some_0.0 as int == time_of(time_part as int).0
            && r->Some_0.1 as int == time_of(time_part as int).1
            && r->Some_0.2 as int == time_of(time_part as int).2,
{
    let hour: u32 = time_part / 3_600_000;
    let rest: u32 = time_part % 3_600_000;
    let minute: u32 = rest / 60_000;
    let second: u32 = (rest % 60_000) / 1000;
    if hour > 0xFF {
        return None;
    }
    Some((hour as u8, minute as u8, second as u8))
}

/// Reads the block index that a memo field holds: four bytes are a
/// little-endian integer, other widths a decimal numeral padded with
/// whitespace.
pub fn memo_index(buf: &[u8]) -> (r: Option<u32>)
    ensures
        r == memo_index_of(buf@),
{
    if buf.len() == 4 {
        assert(buf@.subrange(0, 4) =~= buf@);
        Some(le_u32_at(buf, 0))
    } else {
        assert(buf@.subrange(0, buf@.len() as int) =~= buf@);
        let (a, b) = trim_bounds(buf, 0, buf.len());
        parse_u32_decimal(buf, a, b)
    }
}

fn parse_logic(buf: &[u8]) -> (r: FieldValue)
    requires
        buf@.len() >= 1,
    ensures
        r@ == logical_of(buf@[0]),
{
    match buf[0] {
        0x54 | 0x74 | 0x59 | 0x79 => FieldValue::Logical(true),
        0x46 | 0x66 | 0x4E | 0x6E => FieldValue::Logical(false),
        _ => FieldValue::Null,
    }
}

/// Trimmed text of the whole of `buf`.
fn trimmed_text(buf: &[u8]) -> (r: String)
    ensures
        r@ == utf8_text(trim_ascii(buf@)),
{
    assert(buf@.subrange(0, buf@.len() as int) =~= buf@);
    let (a, b) = trim_bounds(buf, 0, buf.len());
    text_of_range(buf, a, b)
}

fn parse_integer(buf: &[u8]) -> (r: Result<FieldValue, ParseCause>)
    ensures
        buf@.len() != 4 ==> r == Err::<FieldValue, ParseCause>(ParseCause::Length),
        buf@.len() == 4 ==> r is Ok && r->Ok_0@ == ValueModel::Integer(be_i32_of(buf@) as i32),
{
    if buf.len() != 4 {
        return Err(ParseCause::Length);
    }
    assert(buf@.subrange(0, 4) =~= buf@);
    Ok(FieldValue::Integer(be_i32_at(buf, 0)))
}

fn parse_date(buf: &[u8]) -> (r: Result<FieldValue, ParseCause>)
    ensures
        match date_of(buf@) {
            Ok(v) => r is Ok && r->Ok_0@ == v,
            Err(c) => r == Err::<FieldValue, ParseCause>(c),
        },
{
    if buf.len() != 8 {
        return Err(ParseCause::Length);
    }
    let y = parse_u32_decimal(buf, 0, 4);
    let m = parse_u32_decimal(buf, 4, 6);
    let d = parse_u32_decimal(buf, 6, 8);
    proof {
        let s = buf@;
        reveal_with_fuel(pow10, 5);
        assert(pow10(4) == 10000);
        assert(pow10(2) == 100);
        if all_digits(s) {
            assert(all_digits(s.subrange(0, 4)));
            assert(all_digits(s.subrange(4, 6)));
            assert(all_digits(s.subrange(6, 8)));
            lemma_decimal_bound(s.subrange(0, 4));
            lemma_decimal_bound(s.subrange(4, 6));
            lemma_decimal_bound(s.subrange(6, 8));
        }
        if y is Some && m is Some && d is Some {
            assert forall|i: int| 0 <= i < 8 implies crate::bytes::is_digit(#[trigger] s[i]) by {
                if i < 4 {
                    assert(s.subrange(0, 4)[i] == s[i]);
                } else if i < 6 {
                    assert(s.subrange(4, 6)[i - 4] == s[i]);
                } else {
                    assert(s.subrange(6, 8)[i - 6] == s[i]);
                }
            }
        }
    }
    match (y, m, d) {
        (Some(y), Some(m), Some(d)) => Ok(FieldValue::Date(y as u16, m as u8, d as u8)),
        _ => Err(ParseCause::Numeral),
    }
}

fn parse_timestamp(buf: &[u8]) -> (r: Result<FieldValue, ParseCause>)
    ensures
        match timestamp_of(buf@) {
            Ok(v) => r is Ok && r->Ok_0@ == v,
            Err(c) => r == Err::<FieldValue, ParseCause>(c),
        },
{
    if buf.len() != 8 {
        return Err(ParseCause::Length);
    }
    let date_part = le_u32_at(buf, 0);
    let time_part = le_u32_at(buf, 4);
    let date = from_julian_day_to_gregorian_calender(date_part);
    let time = from_time_part_to_time(time_part);
    match (date, time) {
        (Some((year, month, day)), Some((hour, minute, second))) => Ok(
            FieldValue::Timestamp(year, month, day, hour, minute, second),
        ),
        _ => Err(ParseCause::Range),
    }
}

fn parse_memo(field_type: FieldType, buf: &[u8], memo: Option<&MemoReader>) -> (r: Result<
    FieldValue,
    ParseCause,
>)
    ensures
        match memo_value_of(field_type, buf@, memo) {
            Ok(v) => r is Ok && r->Ok_0@ == v,
            Err(c) => r == Err::<FieldValue, ParseCause>(c),
        },
{
    match memo {
        None => Ok(FieldValue::Null),
        Some(reader) => {
            let index = match memo_index(buf) {
                Some(i) => i,
                None => {
                    return Err(ParseCause::Numeral);
                },
            };
            let payload = match reader.read_memo(index) {
                Ok(p) => p,
                Err(_) => {
                    return Err(ParseCause::MemoRead);
                },
            };
            match field_type {
                FieldType::Memo => {
                    assert(payload@.subrange(0, payload@.len() as int) =~= payload@);
                    Ok(FieldValue::Memo(text_of_range(payload.as_slice(), 0, payload.len())))
                },
                FieldType::Binary => Ok(FieldValue::Binary(payload)),
                _ => Ok(FieldValue::General(payload)),
            }
        },
    }
}

/// Decodes field `field` of the record `record_buf`. A blank field is null
/// whatever its type; memo, binary and general fields are null where no memo
/// file is attached.
pub fn parse_field(field: &FieldInfo, record_buf: &[u8], memo: Option<&MemoReader>) -> (r: Result<
    FieldValue,
    FieldParseError,
>)
    requires
        field.offset + field.length <= record_buf@.len(),
    ensures
        match decode(field.field_type, field_bytes(*field, record_buf@), memo) {
            Ok(v) => r is Ok && r->Ok_0@ == v,
            Err(c) => r is Err && r->Err_0.field_name@ == field.name@ && r->Err_0.field_type
                == field.field_type && r->Err_0.cause == Some(c),
        },
{
    let n = record_buf.len();
    assert(field.offset + field.length <= n);
    let bytes = copy_range(record_buf, field.offset, field.offset + field.length);
    reveal(decode);
    let buf = bytes.as_slice();
    if is_blank_bytes(buf) {
        return Ok(FieldValue::Null);
    }
    let value = match field.field_type {
        FieldType::Logical => Ok(parse_logic(buf)),
        FieldType::Character => Ok(FieldValue::Character(trimmed_text(buf))),
        FieldType::Numeric => Ok(FieldValue::Numeric(trimmed_text(buf))),
        FieldType::Float => Ok(FieldValue::Float(trimmed_text(buf))),
        FieldType::Integer => parse_integer(buf),
        FieldType::Date => parse_date(buf),
        FieldType::Timestamp => parse_timestamp(buf),
        _ => parse_memo(field.field_type, buf, memo),
    };
    match value {
        Ok(v) => Ok(v),
        Err(c) => Err(FieldParseError::new(field.name.as_str(), field.field_type, Some(c))),
    }
}

/// A field that is all spaces or all nul decodes to null, whatever its
/// declared type and whether or not a memo file is attached.
pub proof fn lemma_blank_is_null(t: FieldType, b: Seq<u8>, memo: Option<&MemoReader>)
    requires
        is_blank(b),
    ensures
        decode(t, b, memo) == Ok::<ValueModel, ParseCause>(ValueModel::Null),
{
    reveal(decode);
}

} // verus!
