use dbase_reader::{DbfError, DbfReader, FieldType, FieldValue, ValuesIterator};

fn table(version: u8, fields: &[(&str, u8, u8)], records: &[&[u8]], eof: bool) -> Vec<u8> {
    let header_length = 32 + 32 * fields.len() + 1;
    let record_length: usize = 1 + fields.iter().map(|f| f.2 as usize).sum::<usize>();
    let mut out = vec![0u8; 32];
    out[0] = version;
    out[1] = 121;
    out[2] = 7;
    out[3] = 14;
    out[4..8].copy_from_slice(&(records.len() as u32).to_le_bytes());
    out[8..10].copy_from_slice(&(header_length as u16).to_le_bytes());
    out[10..12].copy_from_slice(&(record_length as u16).to_le_bytes());
    for (name, kind, length) in fields {
        let mut d = [0u8; 32];
        d[..name.len()].copy_from_slice(name.as_bytes());
        d[11] = *kind;
        d[16] = *length;
        out.extend_from_slice(&d);
    }
    out.push(0x0D);
    for r in records {
        assert_eq!(r.len(), record_length);
        out.extend_from_slice(r);
    }
    if eof {
        out.push(0x1A);
    }
    out
}

fn all_records(reader: &mut DbfReader) -> Vec<Vec<FieldValue>> {
    let mut out = Vec::new();
    while let Some(values) = reader.next_record().unwrap() {
        out.push(values);
    }
    out
}

#[test]
fn logical_decoding() {
    let data = table(0x03, &[("FLAG", b'L', 1)], &[b" T", b" f", b" ?"], true);
    let mut reader = DbfReader::from_reader(data, None).unwrap();
    let got: Vec<FieldValue> = all_records(&mut reader).into_iter().flatten().collect();
    assert_eq!(got, vec![FieldValue::Logical(true), FieldValue::Logical(false), FieldValue::Null]);
}

#[test]
fn logical_other_letters() {
    let data = table(0x03, &[("FLAG", b'L', 1)], &[b" y", b" N", b" t", b" F"], false);
    let mut reader = DbfReader::from_reader(data, None).unwrap();
    let got: Vec<FieldValue> = all_records(&mut reader).into_iter().flatten().collect();
    assert_eq!(
        got,
        vec![
            FieldValue::Logical(true),
            FieldValue::Logical(false),
            FieldValue::Logical(true),
            FieldValue::Logical(false)
        ]
    );
}

#[test]
fn integer_endianness() {
    let data = table(
        0x30,
        &[("N", b'I', 4)],
        &[&[b' ', 0, 0, 0, 0x2A], &[b' ', 0x2A, 0, 0, 0], &[b' ', 0xFF, 0xFF, 0xFF, 0xFE]],
        false,
    );
    let mut reader = DbfReader::from_reader(data, None).unwrap();
    let got: Vec<FieldValue> = all_records(&mut reader).into_iter().flatten().collect();
    assert_eq!(
        got,
        vec![FieldValue::Integer(42), FieldValue::Integer(704643072), FieldValue::Integer(-2)]
    );
}

#[test]
fn julian_day_timestamp() {
    let mut rec = vec![b' '];
    rec.extend_from_slice(&2451545u32.to_le_bytes());
    rec.extend_from_slice(&43200000u32.to_le_bytes());
    let data = table(0x30, &[("WHEN", b'T', 8)], &[&rec], false);
    let mut reader = DbfReader::from_reader(data, None).unwrap();
    let got = reader.next_record().unwrap().unwrap();
    assert_eq!(got, vec![FieldValue::Timestamp(2000, 1, 1, 12, 0, 0)]);
}

#[test]
fn numeric_with_leading_spaces() {
    let data = table(0x03, &[("AMOUNT", b'N', 10)], &[b"     -3.14 "], false);
    let mut reader = DbfReader::from_reader(data, None).unwrap();
    let got = reader.next_record().unwrap().unwrap();
    assert_eq!(got, vec![FieldValue::Numeric("-3.14".to_string())]);
    match &got[0] {
        FieldValue::Numeric(text) => assert_eq!(text.parse::<f64>().unwrap(), -3.14),
        other => panic!("unexpected {:?}", other),
    }
}

#[test]
fn float_field_keeps_text() {
    let data = table(0x03, &[("RATE", b'F', 6)], &[b" 2.5e3 "], false);
    let mut reader = DbfReader::from_reader(data, None).unwrap();
    assert_eq!(reader.next_record().unwrap().unwrap(), vec![FieldValue::Float("2.5e3".to_string())]);
}

#[test]
fn deleted_record_is_skipped() {
    let data = table(0x03, &[("NAME", b'C', 3)], &[b"*AAA", b" BBB"], true);
    let mut reader = DbfReader::from_reader(data, None).unwrap();
    let got = all_records(&mut reader);
    assert_eq!(got, vec![vec![FieldValue::Character("BBB".to_string())]]);
}

#[test]
fn stream_length_is_count_less_deleted() {
    let data = table(
        0x03,
        &[("NAME", b'C', 2)],
        &[b" aa", b"*bb", b" cc", b"*dd", b" ee"],
        false,
    );
    let mut reader = DbfReader::from_reader(data, None).unwrap();
    assert_eq!(reader.header().record_count, 5);
    assert_eq!(all_records(&mut reader).len(), 3);
}

#[test]
fn scan_consumes_header_and_records() {
    let data = table(0x03, &[("NAME", b'C', 2)], &[b" aa", b"*bb", b" cc"], true);
    let total = data.len();
    let mut reader = DbfReader::from_reader(data, None).unwrap();
    let header_length = reader.header().header_length;
    assert_eq!(reader.consumed(), header_length);
    all_records(&mut reader);
    assert_eq!(reader.consumed(), header_length + 3 * 3 + 1);
    assert_eq!(reader.consumed(), total);
    assert_eq!(reader.next_record().unwrap(), None);
}

#[test]
fn scan_without_eof_byte() {
    let data = table(0x03, &[("NAME", b'C', 2)], &[b" aa", b" cc"], false);
    let mut reader = DbfReader::from_reader(data, None).unwrap();
    all_records(&mut reader);
    assert_eq!(reader.consumed(), reader.header().header_length + 2 * 3);
}

#[test]
fn empty_table_yields_nothing() {
    let data = table(0x03, &[("NAME", b'C', 2)], &[], true);
    let mut reader = DbfReader::from_reader(data, None).unwrap();
    assert_eq!(reader.header().record_count, 0);
    assert_eq!(reader.next_record().unwrap(), None);
}

#[test]
fn truncated_last_record_is_an_io_error() {
    let mut data = table(0x03, &[("NAME", b'C', 4)], &[b" abcd"], false);
    data.extend_from_slice(b" xy");
    let mut reader = DbfReader::from_reader(data, None).unwrap();
    assert_eq!(reader.next_record().unwrap().unwrap(), vec![FieldValue::Character("abcd".to_string())]);
    assert!(matches!(reader.next_record(), Err(DbfError::Io)));
    assert_eq!(reader.next_record().unwrap(), None);
}

#[test]
fn field_error_does_not_stop_the_stream() {
    let data = table(0x03, &[("DAY", b'D', 8)], &[b" 2020AB01", b" 20200102"], false);
    let mut reader = DbfReader::from_reader(data, None).unwrap();
    match reader.next_record() {
        Err(DbfError::FieldParse(e)) => {
            assert_eq!(e.field_name, "DAY");
            assert_eq!(e.field_type, FieldType::Date);
            assert_eq!(e.cause, Some(dbase_reader::ParseCause::Numeral));
        }
        other => panic!("unexpected {:?}", other),
    }
    assert_eq!(reader.next_record().unwrap().unwrap(), vec![FieldValue::Date(2020, 1, 2)]);
}

#[test]
fn offsets_and_record_length() {
    let data = table(
        0x03,
        &[("A", b'C', 5), ("B", b'N', 7), ("C", b'L', 1)],
        &[b" hello   12.5T"],
        false,
    );
    let reader = DbfReader::from_reader(data, None).unwrap();
    let offsets: Vec<usize> = reader.fields().iter().map(|f| f.offset).collect();
    assert_eq!(offsets, vec![1, 6, 13]);
    let lengths: usize = reader.fields().iter().map(|f| f.length).sum();
    assert_eq!(1 + lengths, reader.record_length());
    assert_eq!(reader.record_length(), 14);
}

#[test]
fn unsupported_version_is_refused() {
    let mut data = table(0x03, &[("A", b'C', 1)], &[], false);
    data[0] = 0x99;
    assert!(matches!(DbfReader::from_reader(data, None), Err(DbfError::UnsupportedVersion(0x99))));
}

#[test]
fn unsupported_field_type_is_refused() {
    let data = table(0x03, &[("A", b'C', 1), ("B", b'X', 1)], &[], false);
    match DbfReader::from_reader(data, None) {
        Err(DbfError::UnsupportedFieldType(e)) => assert_eq!(e.0, 'X'),
        other => panic!("unexpected {:?}", other.err()),
    }
}

#[test]
fn short_table_is_an_io_error() {
    assert!(matches!(DbfReader::from_reader(vec![], None), Err(DbfError::Io)));
    assert!(matches!(DbfReader::from_reader(vec![0x03, 1, 2], None), Err(DbfError::Io)));
    let mut data = table(0x03, &[("A", b'C', 1)], &[], false);
    data.truncate(40);
    assert!(matches!(DbfReader::from_reader(data, None), Err(DbfError::Io)));
}

#[test]
fn record_length_mismatch_is_refused() {
    let mut data = table(0x03, &[("A", b'C', 3)], &[], false);
    data[10] = 9;
    match DbfReader::from_reader(data, None) {
        Err(DbfError::RecordLengthMismatch { record_length, fields_end }) => {
            assert_eq!(record_length, 9);
            assert_eq!(fields_end, 4);
        }
        other => panic!("unexpected {:?}", other.err()),
    }
}

#[test]
fn values_iterator_names_fields() {
    let data = table(0x03, &[("NAME", b'C', 3), ("OK", b'L', 1)], &[b" BobT", b"*EveF", b" Al  "], true);
    let reader = DbfReader::from_reader(data, None).unwrap();
    let mut it = ValuesIterator::new(reader);
    let first = it.next().unwrap().unwrap();
    assert_eq!(
        first,
        vec![
            ("NAME".to_string(), FieldValue::Character("Bob".to_string())),
            ("OK".to_string(), FieldValue::Logical(true))
        ]
    );
    let second = it.next().unwrap().unwrap();
    assert_eq!(
        second,
        vec![
            ("NAME".to_string(), FieldValue::Character("Al".to_string())),
            ("OK".to_string(), FieldValue::Null)
        ]
    );
    assert!(it.next().is_none());
}

#[test]
fn header_fields_are_decoded() {
    let data = table(0x8B, &[("A", b'C', 2)], &[b" xy"], false);
    let reader = DbfReader::from_reader(data, None).unwrap();
    let h = reader.header();
    assert_eq!(h.version, dbase_reader::Version::DBase4);
    assert_eq!((h.last_update.year, h.last_update.month, h.last_update.day), (2021, 7, 14));
    assert_eq!(h.record_count, 1);
    assert_eq!(h.header_length, 65);
    assert_eq!(h.record_length, 3);
}

#[test]
fn read_all_yields_live_records_and_consumes_table() {
    let data = table(0x03, &[("NAME", b'C', 2)], &[b" aa", b"*bb", b" cc", b"*dd"], true);
    let total = data.len();
    let mut reader = DbfReader::from_reader(data, None).unwrap();
    let got = reader.read_all();
    assert_eq!(got.len(), 2);
    assert_eq!(got[0].as_ref().unwrap(), &vec![FieldValue::Character("aa".to_string())]);
    assert_eq!(got[1].as_ref().unwrap(), &vec![FieldValue::Character("cc".to_string())]);
    assert_eq!(reader.consumed(), total);
    assert_eq!(reader.next_record().unwrap(), None);
}

#[test]
fn read_all_ends_with_error_on_cut_record() {
    let mut data = table(0x03, &[("NAME", b'C', 4)], &[b" abcd"], false);
    data.extend_from_slice(b" xy");
    let mut reader = DbfReader::from_reader(data, None).unwrap();
    let got = reader.read_all();
    assert_eq!(got.len(), 2);
    assert!(got[0].is_ok());
    assert!(matches!(got[1], Err(DbfError::Io)));
}

#[test]
fn field_name_bytes_are_characters() {
    let mut data = table(0x03, &[("CAFX", b'C', 1)], &[], false);
    data[35] = 0xE9;
    let reader = DbfReader::from_reader(data, None).unwrap();
    assert_eq!(reader.fields()[0].name, "CAF\u{e9}");
}

#[test]
fn character_valid_utf8_is_kept() {
    let data = table(0x03, &[("NAME", b'C', 6)], &[" caf\u{e9} ".as_bytes()], false);
    let mut reader = DbfReader::from_reader(data, None).unwrap();
    assert_eq!(reader.next_record().unwrap().unwrap(), vec![FieldValue::Character("caf\u{e9}".to_string())]);
}
