use dbase_reader::{
    DateAccess, DbfDeserializer, DeserializeError, ErrorCode, FieldInfo, FieldType, FieldValue,
    NoSuchFieldError, TimestampAccess, Date, Time, Timestamp,
};

fn fields() -> Vec<FieldInfo> {
    vec![
        FieldInfo { name: "NAME".to_string(), field_type: FieldType::Character, length: 3, offset: 1 },
        FieldInfo { name: "AGE".to_string(), field_type: FieldType::Integer, length: 4, offset: 4 },
    ]
}

#[test]
fn cursor_reads_fields_in_order() {
    let mut d = DbfDeserializer::new(fields());
    assert_eq!(d.field_count(), 2);
    assert!(!d.has_next_field());
    d.set_values(vec![FieldValue::Character("Bob".to_string()), FieldValue::Null]);
    assert_eq!(d.peek_field(), Some(FieldType::Character));
    assert_eq!(d.is_next_value_null(), Some(false));
    assert_eq!(d.next_value(), Some(FieldValue::Character("Bob".to_string())));
    assert_eq!(d.peek_value(), Some(&FieldValue::Null));
    assert_eq!(d.is_next_value_null(), Some(true));
    assert_eq!(d.next_value(), Some(FieldValue::Null));
    assert!(!d.has_next_field());
    assert_eq!(d.next_value(), None);
    assert_eq!(d.peek_field(), None);
    d.reset_index();
    assert!(d.has_next_field());
}

#[test]
fn cursor_moves_by_name() {
    let mut d = DbfDeserializer::new(fields());
    d.set_values(vec![FieldValue::Character("Bob".to_string()), FieldValue::Integer(7)]);
    d.set_field_with_name("AGE").unwrap();
    assert_eq!(d.next_value(), Some(FieldValue::Integer(7)));
    let e = d.set_field_with_name("HEIGHT").unwrap_err();
    assert_eq!(e.field, "HEIGHT");
    d.set_field_with_name("NAME").unwrap();
    assert_eq!(d.next_value(), Some(FieldValue::Character("Bob".to_string())));
}

#[test]
fn cursor_errors_name_the_field_and_record() {
    let mut d = DbfDeserializer::new(fields());
    d.set_values(vec![FieldValue::Character("Bob".to_string()), FieldValue::Null]);
    d.set_values(vec![FieldValue::Character("Ann".to_string()), FieldValue::Null]);
    d.next_value();
    let e = d.error_expected(FieldType::Logical);
    assert!(matches!(e.code, ErrorCode::Expected(FieldType::Logical)));
    assert_eq!((e.record, e.field.as_str()), (2, "NAME"));
    d.next_value();
    let e = d.error_unexpected_null();
    assert!(matches!(e.code, ErrorCode::UnexpectedNull));
    assert_eq!(e.field, "AGE");
    assert!(matches!(d.error_expected_null().code, ErrorCode::ExpectedNull));
    assert!(matches!(d.error_field_parse().code, ErrorCode::FieldParse));
    assert!(matches!(d.error_tuple_length(5).code, ErrorCode::TupleLength(5, 2)));
    assert!(matches!(d.error_end_of_record().code, ErrorCode::UnexpectedEndOfRecord));
    assert!(matches!(d.error_missing_memo_file().code, ErrorCode::MissingMemoFile));
}

#[test]
fn error_constructors() {
    let e = DeserializeError::no_such_field(NoSuchFieldError::new("X"));
    assert!(matches!(e.code, ErrorCode::NoSuchField));
    assert_eq!(e.field, "X");
    let e = DeserializeError::tuple_length(3, 2);
    assert!(matches!(e.code, ErrorCode::TupleLength(3, 2)));
    assert_eq!(e.record, 0);
    let e = DeserializeError::field_parse(4, "P");
    assert_eq!((e.record, e.field.as_str()), (4, "P"));
    let e = dbase_reader::FieldParseError::new("Q", FieldType::Date, None);
    assert_eq!(e.field_name, "Q");
    assert_eq!(e.cause, None);
}

#[test]
fn date_parts_in_order() {
    let mut a = DateAccess::new(2021, 7, 14);
    assert_eq!(a.next_element(), Some(2021));
    assert_eq!(a.next_element(), Some(7));
    assert_eq!(a.next_element(), Some(14));
    assert_eq!(a.next_element(), None);
}

#[test]
fn timestamp_parts_in_order() {
    let mut a = TimestampAccess::new(2000, 1, 2, 3, 4, 5);
    let mut got = Vec::new();
    while let Some(v) = a.next_element() {
        got.push(v);
    }
    assert_eq!(got, vec![2000, 1, 2, 3, 4, 5]);
}

#[test]
fn calendar_values() {
    assert_eq!(Date::new(2020, 2, 29), Date { year: 2020, month: 2, day: 29 });
    assert_eq!(Time::new(1, 2, 3, 4).millisecond, 4);
    let t = Timestamp::new(2000, 1, 1, 12, 0, 0, 0);
    assert_eq!(t.date, Date::new(2000, 1, 1));
    assert_eq!(t.time, Time::new(12, 0, 0, 0));
}
