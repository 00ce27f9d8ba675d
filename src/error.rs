//! Errors of opening a table, decoding a field and binding records.
use vstd::prelude::*;

use crate::field::FieldType;

verus! {

/// A field descriptor whose type character is not one of the known ones.
#[derive(Debug, Clone, PartialEq, Eq, Structural)]
pub struct UnsupportedFieldTypeError(pub char);

/// Why the bytes of a field could not be turned into a value of its type.
#[derive(Debug, Clone, Copy, PartialEq, Eq, Structural)]
pub enum ParseCause {
    /// The field does not have the width that its type requires.
    Length,
    /// A part that must be a decimal numeral is not one.
    Numeral,
    /// The decoded value does not fit in the value's fields.
    Range,
    /// The memo that the field points at could not be read.
    MemoRead,
}

/// A field whose bytes cannot be coerced to its declared type.
#[derive(Debug, Clone)]
pub struct FieldParseError {
    pub field_name: String,
    pub field_type: FieldType,
    pub cause: Option<ParseCause>,
}

impl FieldParseError {
    pub fn new(field_name: &str, field_type: FieldType, cause: Option<ParseCause>) -> (r: Self)
        ensures
            r.field_name@ == field_name@,
            r.field_type == field_type,
            r.cause == cause,
    {
        FieldParseError { field_name: field_name.to_owned(), field_type, cause }
    }
}

/// Failure to open a table or to read one of its records.
#[derive(Debug, Clone)]
pub enum DbfError {
    /// The first byte of the table is not a known dialect signature.
    UnsupportedVersion(u8),
    /// A field descriptor carries an unknown type character.
    UnsupportedFieldType(UnsupportedFieldTypeError),
    /// The data ends before a structure that it declares.
    Io,
    /// The field lengths do not add up to the declared record length.
    RecordLengthMismatch { record_length: usize, fields_end: usize },
    /// A field of a live record could not be decoded.
    FieldParse(FieldParseError),
}

/// A binding asked for a field name that the table does not have.
#[derive(Debug, Clone)]
pub struct NoSuchFieldError {
    pub field: String,
}

impl NoSuchFieldError {
    pub fn new(field: &str) -> (r: Self)
        ensures
            r.field@ == field@,
    {
        NoSuchFieldError { field: field.to_owned() }
    }
}

/// What went wrong while binding a record to a typed shape.
#[derive(Debug, Clone)]
pub enum ErrorCode {
    /// A message from the binding framework.
    Custom(String),
    /// Reading the table or its memo file failed.
    Io,
    /// The field holds a value of another type than the one asked for.
    Expected(FieldType),
    /// A tuple of the first length was asked of a record of the second.
    TupleLength(usize, usize),
    /// A value was asked of a null field.
    UnexpectedNull,
    /// Null was asked of a field that holds a value.
    ExpectedNull,
    /// The shape names a field that the table does not have.
    NoSuchField,
    /// The field's bytes could not be decoded.
    FieldParse,
    /// A memo field was met with no memo file attached.
    MissingMemoFile,
    /// More fields were asked for than the record has.
    UnexpectedEndOfRecord,
}

/// An error of binding a record, with the record's ordinal and the field's
/// name where they are known.
#[derive(Debug, Clone)]
pub struct DeserializeError {
    pub code: ErrorCode,
    pub record: usize,
    pub field: String,
}

impl DeserializeError {
    pub fn missing_memo_file() -> (r: Self)
        ensures
            r.code is MissingMemoFile,
            r.record == 0,
            r.field@ == Seq::<char>::empty(),
    {
        DeserializeError { code: ErrorCode::MissingMemoFile, record: 0, field: String::new() }
    }

    pub fn field_parse(record: usize, field: &str) -> (r: Self)
        ensures
            r.code is FieldParse,
            r.record == record,
            r.field@ == field@,
    {
        DeserializeError { code: ErrorCode::FieldParse, record, field: field.to_owned() }
    }

    pub fn unexpected_end_of_record() -> (r: Self)
        ensures
            r.code is UnexpectedEndOfRecord,
            r.record == 0,
            r.field@ == Seq::<char>::empty(),
    {
        DeserializeError { code: ErrorCode::UnexpectedEndOfRecord, record: 0, field: String::new() }
    }

    pub fn expected(field_type: FieldType, record: usize, field: &str) -> (r: Self)
        ensures
            r.code == ErrorCode::Expected(field_type),
            r.record == record,
            r.field@ == field@,
    {
        DeserializeError { code: ErrorCode::Expected(field_type), record, field: field.to_owned() }
    }

    pub fn unexpected_null(record: usize, field: &str) -> (r: Self)
        ensures
            r.code is UnexpectedNull,
            r.record == record,
            r.field@ == field@,
    {
        DeserializeError { code: ErrorCode::UnexpectedNull, record, field: field.to_owned() }
    }

    pub fn expected_null(record: usize, field: &str) -> (r: Self)
        ensures
            r.code is ExpectedNull,
            r.record == record,
            r.field@ == field@,
    {
        DeserializeError { code: ErrorCode::ExpectedNull, record, field: field.to_owned() }
    }

    /// A tuple of `length` values was asked of a record of `record` fields.
    pub fn tuple_length(length: usize, record: usize) -> (r: Self)
        ensures
            r.code == ErrorCode::TupleLength(length, record),
            r.record == 0,
            r.field@ == Seq::<char>::empty(),
    {
        DeserializeError { code: ErrorCode::TupleLength(length, record), record: 0, field: String::new() }
    }

    /// The binding of a name that the table lacks.
    pub fn no_such_field(e: NoSuchFieldError) -> (r: Self)
        ensures
            r.code is NoSuchField,
            r.record == 0,
            r.field@ == e.field@,
    {
        DeserializeError { code: ErrorCode::NoSuchField, record: 0, field: e.field }
    }
}

} // verus!
