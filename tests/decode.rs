use dbase_reader::parser::{from_julian_day_to_gregorian_calender, from_time_part_to_time, memo_index};
use dbase_reader::{
    check_null, parse_field, parse_record, read_field_info, FieldInfo, FieldType, FieldValue,
    ParseCause, UnsupportedFieldTypeError, Version,
};

fn field(kind: FieldType, offset: usize, length: usize) -> FieldInfo {
    FieldInfo { name: "F".to_string(), field_type: kind, length, offset }
}

#[test]
fn blank_fields_are_null_whatever_the_type() {
    let kinds = [
        FieldType::Logical,
        FieldType::Character,
        FieldType::Integer,
        FieldType::Numeric,
        FieldType::Float,
        FieldType::Date,
        FieldType::Timestamp,
        FieldType::Memo,
        FieldType::Binary,
        FieldType::General,
    ];
    for kind in kinds {
        let spaces = b"*    ";
        let nuls = [b' ', 0, 0, 0, 0];
        assert_eq!(parse_field(&field(kind, 1, 4), spaces, None).unwrap(), FieldValue::Null);
        assert_eq!(parse_field(&field(kind, 1, 4), &nuls, None).unwrap(), FieldValue::Null);
        assert!(check_null(&field(kind, 1, 4), spaces));
        assert!(check_null(&field(kind, 1, 4), &nuls));
    }
    assert!(!check_null(&field(FieldType::Character, 1, 4), b"  a  "));
    assert!(!check_null(&field(FieldType::Character, 1, 4), &[b' ', 0, b' ', 0, 0]));
}

#[test]
fn character_is_trimmed() {
    let v = parse_field(&field(FieldType::Character, 1, 8), b" \t hi x  ", None).unwrap();
    assert_eq!(v, FieldValue::Character("hi x".to_string()));
}

#[test]
fn character_invalid_utf8_is_replaced() {
    let v = parse_field(&field(FieldType::Character, 1, 3), &[b' ', 0xFF, b'a', b'b'], None).unwrap();
    assert_eq!(v, FieldValue::Character("\u{FFFD}ab".to_string()));
}

#[test]
fn date_is_parsed() {
    let v = parse_field(&field(FieldType::Date, 1, 8), b" 19991231", None).unwrap();
    assert_eq!(v, FieldValue::Date(1999, 12, 31));
}

#[test]
fn date_errors() {
    let e = parse_field(&field(FieldType::Date, 1, 8), b" 1999-2-1", None).unwrap_err();
    assert_eq!(e.cause, Some(ParseCause::Numeral));
    assert_eq!(e.field_type, FieldType::Date);
    let e = parse_field(&field(FieldType::Date, 1, 6), b" 199912", None).unwrap_err();
    assert_eq!(e.cause, Some(ParseCause::Length));
}

#[test]
fn integer_needs_four_bytes() {
    let e = parse_field(&field(FieldType::Integer, 1, 3), &[b' ', 1, 2, 3], None).unwrap_err();
    assert_eq!(e.cause, Some(ParseCause::Length));
    assert_eq!(e.field_name, "F");
}

#[test]
fn timestamp_out_of_range() {
    let mut rec = vec![b' '];
    rec.extend_from_slice(&2451545u32.to_le_bytes());
    rec.extend_from_slice(&u32::MAX.to_le_bytes());
    let e = parse_field(&field(FieldType::Timestamp, 1, 8), &rec, None).unwrap_err();
    assert_eq!(e.cause, Some(ParseCause::Range));
    let e = parse_field(&field(FieldType::Timestamp, 1, 4), &rec, None).unwrap_err();
    assert_eq!(e.cause, Some(ParseCause::Length));
}

#[test]
fn julian_day_conversion() {
    assert_eq!(from_julian_day_to_gregorian_calender(2451545), Some((2000, 1, 1)));
    assert_eq!(from_julian_day_to_gregorian_calender(2440588), Some((1970, 1, 1)));
    assert_eq!(from_julian_day_to_gregorian_calender(2459946), Some((2023, 1, 1)));
    assert_eq!(from_julian_day_to_gregorian_calender(2459960), Some((2023, 1, 15)));
    assert_eq!(from_julian_day_to_gregorian_calender(2451604), Some((2000, 2, 29)));
    assert_eq!(from_julian_day_to_gregorian_calender(0), None);
    assert_eq!(from_julian_day_to_gregorian_calender(u32::MAX), None);
}

#[test]
fn time_part_conversion() {
    assert_eq!(from_time_part_to_time(43200000), Some((12, 0, 0)));
    assert_eq!(from_time_part_to_time(45296789), Some((12, 34, 56)));
    assert_eq!(from_time_part_to_time(0), Some((0, 0, 0)));
    assert_eq!(from_time_part_to_time(921_600_000), None);
}

#[test]
fn memo_index_forms() {
    assert_eq!(memo_index(&[7, 1, 0, 0]), Some(263));
    assert_eq!(memo_index(b"        12"), Some(12));
    assert_eq!(memo_index(b"      0012"), Some(12));
    assert_eq!(memo_index(b"     1 2  "), None);
    assert_eq!(memo_index(b"99999999999"), None);
    assert_eq!(memo_index(b"4294967295"), Some(u32::MAX));
}

#[test]
fn memo_field_without_memo_file_is_null() {
    let v = parse_field(&field(FieldType::Memo, 1, 10), b"          3", None).unwrap();
    assert_eq!(v, FieldValue::Null);
    let v = parse_field(&field(FieldType::Binary, 1, 4), &[b' ', 1, 0, 0, 0], None).unwrap();
    assert_eq!(v, FieldValue::Null);
}

#[test]
fn record_decodes_in_field_order() {
    let fields = vec![field(FieldType::Character, 1, 2), field(FieldType::Logical, 3, 1)];
    let got = parse_record(&fields, b" abN", None).unwrap();
    assert_eq!(got, vec![FieldValue::Character("ab".to_string()), FieldValue::Logical(false)]);
    let fields = vec![field(FieldType::Character, 1, 2), field(FieldType::Integer, 3, 1)];
    let e = parse_record(&fields, b" abN", None).unwrap_err();
    assert_eq!(e.field_type, FieldType::Integer);
}

#[test]
fn descriptor_table_is_read() {
    let mut buf = vec![0u8; 64];
    buf[..4].copy_from_slice(b"NAME");
    buf[11] = b'C';
    buf[16] = 20;
    buf[32..37].copy_from_slice(b"PRICE");
    buf[43] = b'N';
    buf[48] = 8;
    buf.push(0x0D);
    buf.extend_from_slice(&[0u8; 40]);
    let fields = read_field_info(&buf).unwrap();
    assert_eq!(fields.len(), 2);
    assert_eq!(fields[0].name, "NAME");
    assert_eq!(fields[0].field_type, FieldType::Character);
    assert_eq!((fields[0].offset, fields[0].length), (1, 20));
    assert_eq!(fields[1].name, "PRICE");
    assert_eq!(fields[1].field_type, FieldType::Numeric);
    assert_eq!((fields[1].offset, fields[1].length), (21, 8));
}

#[test]
fn descriptor_table_stops_at_partial_entry() {
    let mut buf = vec![0u8; 50];
    buf[0] = b'A';
    buf[11] = b'L';
    buf[16] = 1;
    let fields = read_field_info(&buf).unwrap();
    assert_eq!(fields.len(), 1);
}

#[test]
fn field_info_new_checks_type() {
    let f = FieldInfo::new(b"ID\0\0\0\0\0\0\0\0\0", b'I', 4, 1).unwrap();
    assert_eq!(f.name, "ID");
    assert_eq!(f.field_type, FieldType::Integer);
    let f = FieldInfo::new(&[b'N', 0xE9, 0, b'X'], b'C', 1, 1).unwrap();
    assert_eq!(f.name, "N\u{e9}");
    let e = FieldInfo::new(b"ID", b'Q', 4, 1).unwrap_err();
    assert_eq!(e, UnsupportedFieldTypeError('Q'));
}

#[test]
fn type_characters() {
    let pairs = [
        (b'B', FieldType::Binary),
        (b'C', FieldType::Character),
        (b'D', FieldType::Date),
        (b'F', FieldType::Float),
        (b'G', FieldType::General),
        (b'I', FieldType::Integer),
        (b'L', FieldType::Logical),
        (b'M', FieldType::Memo),
        (b'N', FieldType::Numeric),
        (b'T', FieldType::Timestamp),
    ];
    for (c, t) in pairs {
        assert_eq!(FieldType::try_from(c).unwrap(), t);
    }
    assert!(FieldType::try_from(b'c').is_err());
    assert_eq!(FieldType::Timestamp.name(), "Timestamp");
}

#[test]
fn version_bytes() {
    assert_eq!(Version::try_from(0x02).unwrap(), Version::FoxBase);
    assert_eq!(Version::try_from(0x03).unwrap(), Version::DBase3);
    assert_eq!(Version::try_from(0x83).unwrap(), Version::DBase3);
    for b in [0x30u8, 0x31, 0x32] {
        assert_eq!(Version::try_from(b).unwrap(), Version::VisualFoxPro);
    }
    for b in [0x43u8, 0x63, 0x8B, 0xCB] {
        assert_eq!(Version::try_from(b).unwrap(), Version::DBase4);
    }
    assert_eq!(Version::try_from(0xF5).unwrap(), Version::FoxPro2);
    assert_eq!(Version::try_from(0xFB).unwrap(), Version::FoxPro2);
    assert!(matches!(Version::try_from(0x04), Err(dbase_reader::DbfError::UnsupportedVersion(4))));
}
