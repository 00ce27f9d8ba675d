use dbase_reader::{DbfError, FieldInfo, FieldType, FieldValue, MemoReader, ParseCause, Version, parse_field};

fn dbase3_memo() -> Vec<u8> {
    let mut data = vec![0u8; 512];
    data.extend_from_slice(b"hello\x1Agarbage");
    data.resize(1024, 0);
    data.extend_from_slice(b"second memo");
    data
}

#[test]
fn dbase3_memo_terminator() {
    let memo = MemoReader::from_reader(dbase3_memo(), Version::DBase3).unwrap();
    assert_eq!(memo.get_block_size(), 512);
    assert_eq!(memo.read_memo(1).unwrap(), b"hello".to_vec());
}

#[test]
fn dbase3_memo_runs_to_end_without_terminator() {
    let memo = MemoReader::from_reader(dbase3_memo(), Version::DBase3).unwrap();
    assert_eq!(memo.read_memo(2).unwrap(), b"second memo".to_vec());
    assert!(matches!(memo.read_memo(3), Err(DbfError::Io)));
}

#[test]
fn dbase4_block_size_and_payload() {
    let mut data = vec![0u8; 8];
    data[4..6].copy_from_slice(&64u16.to_le_bytes());
    data.resize(64, 0);
    data.extend_from_slice(&[0xFF, 0xFF, 0x08, 0x00]);
    data.extend_from_slice(&5u32.to_le_bytes());
    data.extend_from_slice(b"abcdefgh");
    let memo = MemoReader::from_reader(data, Version::DBase4).unwrap();
    assert_eq!(memo.get_block_size(), 64);
    assert_eq!(memo.read_memo(1).unwrap(), b"abcde".to_vec());
}

#[test]
fn dbase4_zero_block_size_means_default() {
    let memo = MemoReader::from_reader(vec![0u8; 16], Version::DBase4).unwrap();
    assert_eq!(memo.get_block_size(), 512);
}

#[test]
fn foxpro_block_size_is_big_endian() {
    let mut data = vec![0u8; 10];
    data[8..10].copy_from_slice(&[0x00, 0x40]);
    data.resize(128, 0);
    data.extend_from_slice(&[0, 0, 0, 1]);
    data.extend_from_slice(&[0, 0, 0, 3]);
    data.extend_from_slice(&[1, 2, 3, 4]);
    let memo = MemoReader::from_reader(data, Version::FoxPro2).unwrap();
    assert_eq!(memo.get_block_size(), 64);
    assert_eq!(memo.read_memo(2).unwrap(), vec![1, 2, 3]);
}

#[test]
fn block_zero_is_a_valid_seek() {
    let mut data = vec![0u8; 4];
    data.extend_from_slice(&2u32.to_le_bytes());
    data.extend_from_slice(b"hi");
    let memo = MemoReader::from_reader(data, Version::DBase4).unwrap();
    assert_eq!(memo.read_memo(0).unwrap(), b"hi".to_vec());

    let mut data = vec![0u8; 4];
    data.extend_from_slice(&[0, 0, 0, 2]);
    data.extend_from_slice(b"ok");
    let memo = MemoReader::from_reader(data, Version::VisualFoxPro).unwrap();
    assert_eq!(memo.read_memo(0).unwrap(), b"ok".to_vec());
}

#[test]
fn memo_length_past_end_is_an_io_error() {
    let mut data = vec![0u8; 4];
    data.extend_from_slice(&100u32.to_le_bytes());
    data.extend_from_slice(b"short");
    let memo = MemoReader::from_reader(data, Version::DBase4).unwrap();
    assert!(matches!(memo.read_memo(0), Err(DbfError::Io)));
}

#[test]
fn short_memo_header_is_an_io_error() {
    assert!(matches!(MemoReader::from_reader(vec![0u8; 5], Version::DBase4), Err(DbfError::Io)));
    assert!(matches!(MemoReader::from_reader(vec![0u8; 9], Version::FoxBase), Err(DbfError::Io)));
    assert!(MemoReader::from_reader(vec![], Version::DBase3).is_ok());
}

#[test]
fn memo_fields_resolve_through_the_memo_file() {
    let memo = MemoReader::from_reader(dbase3_memo(), Version::DBase3).unwrap();
    let f = FieldInfo { name: "NOTE".to_string(), field_type: FieldType::Memo, length: 10, offset: 1 };
    let v = parse_field(&f, b"          1", Some(&memo)).unwrap();
    assert_eq!(v, FieldValue::Memo("hello".to_string()));
    let g = FieldInfo { name: "BLOB".to_string(), field_type: FieldType::General, length: 4, offset: 1 };
    let v = parse_field(&g, &[b' ', 2, 0, 0, 0], Some(&memo)).unwrap();
    assert_eq!(v, FieldValue::General(b"second memo".to_vec()));
    let b = FieldInfo { name: "BIN".to_string(), field_type: FieldType::Binary, length: 4, offset: 1 };
    let v = parse_field(&b, &[b' ', 1, 0, 0, 0], Some(&memo)).unwrap();
    assert_eq!(v, FieldValue::Binary(b"hello".to_vec()));
}

#[test]
fn memo_field_errors() {
    let memo = MemoReader::from_reader(dbase3_memo(), Version::DBase3).unwrap();
    let f = FieldInfo { name: "NOTE".to_string(), field_type: FieldType::Memo, length: 10, offset: 1 };
    let e = parse_field(&f, b"         9x", Some(&memo)).unwrap_err();
    assert_eq!(e.cause, Some(ParseCause::Numeral));
    let e = parse_field(&f, b"         99", Some(&memo)).unwrap_err();
    assert_eq!(e.cause, Some(ParseCause::MemoRead));
    assert_eq!(e.field_name, "NOTE");
}
