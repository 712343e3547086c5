use rs_shapefile::parsers::dbf_parser::DbfParser;
use rs_shapefile::{AttributeValue, FieldType, Number, ShapefileError};

type Record = Result<Vec<(String, AttributeValue)>, ShapefileError>;

fn build_test_dbf(fields: &[(&str, u8, u8, u8)], records: &[(u8, &[Vec<u8>])]) -> Vec<u8> {
    let mut buf = Vec::new();
    let num_fields = fields.len();
    let header_size: u16 = 32 + (num_fields as u16 * 32) + 1;
    let record_size: u16 = 1 + fields.iter().map(|f| f.2 as u16).sum::<u16>();
    buf.push(0x03);
    buf.extend_from_slice(&[24, 1, 1]);
    buf.extend_from_slice(&(records.len() as i32).to_le_bytes());
    buf.extend_from_slice(&(header_size as i16).to_le_bytes());
    buf.extend_from_slice(&(record_size as i16).to_le_bytes());
    buf.extend_from_slice(&[0u8; 20]);
    for (name, type_byte, length, decimal_count) in fields {
        let mut name_bytes = [0u8; 11];
        for (i, b) in name.as_bytes().iter().enumerate().take(11) {
            name_bytes[i] = *b;
        }
        buf.extend_from_slice(&name_bytes);
        buf.push(*type_byte);
        buf.extend_from_slice(&[0u8; 4]);
        buf.push(*length);
        buf.push(*decimal_count);
        buf.extend_from_slice(&[0u8; 14]);
    }
    buf.push(0x0D);
    for (flag, field_values) in records {
        buf.push(*flag);
        for val in *field_values {
            buf.extend_from_slice(val);
        }
    }
    buf
}

fn pad_right(s: &str, len: usize) -> Vec<u8> {
    let mut v = s.as_bytes().to_vec();
    v.resize(len, b' ');
    v
}

fn pad_left(s: &str, len: usize) -> Vec<u8> {
    let mut v = vec![b' '; len.saturating_sub(s.len())];
    v.extend_from_slice(s.as_bytes());
    v
}

fn collect(parser: &mut DbfParser) -> Vec<Record> {
    let mut out = Vec::new();
    while let Some(r) = parser.next_record() {
        out.push(r);
    }
    out
}

fn numeric(v: &AttributeValue) -> f64 {
    match v {
        AttributeValue::Numeric(Number::Decimal(s)) => s.parse().unwrap(),
        AttributeValue::Numeric(Number::Bits(b)) => f64::from_bits(*b),
        AttributeValue::Numeric(Number::Integer(i)) => *i as f64,
        AttributeValue::Numeric(Number::Single(b)) => f32::from_bits(*b) as f64,
        other => panic!("expected Numeric, got {:?}", other),
    }
}

fn utf8_parser(bytes: Vec<u8>) -> DbfParser {
    DbfParser::new(bytes, Some(b"UTF-8".as_slice())).unwrap()
}

#[test]
fn test_parse_field_name() {
    let dbf_bytes = build_test_dbf(&[("TEST_FIELD", b'C', 10, 0)], &[(0x20, &[pad_right("Hello", 10)])]);
    let mut parser = utf8_parser(dbf_bytes);
    let header = parser.parse_header().unwrap();
    assert_eq!(header.fields.len(), 1);
    assert_eq!(header.fields[0].name, "TEST_FIELD");
    assert_eq!(header.fields[0].field_type, FieldType::Character);
    assert_eq!(header.fields[0].length, 10);
}

#[test]
fn test_parse_character_field() {
    let dbf_bytes = build_test_dbf(&[("NAME", b'C', 10, 0)], &[(0x20, &[pad_right("Hello", 10)])]);
    let mut parser = utf8_parser(dbf_bytes);
    parser.parse_header().unwrap();
    let records = collect(&mut parser);
    assert_eq!(records.len(), 1);
    let rec = records[0].as_ref().unwrap();
    assert_eq!(rec[0].0, "NAME");
    assert_eq!(rec[0].1, AttributeValue::Text("Hello".to_string()));
}

#[test]
fn test_parse_numeric_field() {
    let dbf_bytes = build_test_dbf(&[("VALUE", b'N', 10, 1)], &[(0x20, &[pad_left("42.5", 10)])]);
    let mut parser = utf8_parser(dbf_bytes);
    parser.parse_header().unwrap();
    let records = collect(&mut parser);
    assert_eq!(records.len(), 1);
    let rec = records[0].as_ref().unwrap();
    assert_eq!(rec[0].0, "VALUE");
    assert_eq!(numeric(&rec[0].1), 42.5);
}

#[test]
fn test_parse_date_field() {
    let dbf_bytes = build_test_dbf(&[("CREATED", b'D', 8, 0)], &[(0x20, &[b"20240101".to_vec()])]);
    let mut parser = utf8_parser(dbf_bytes);
    parser.parse_header().unwrap();
    let records = collect(&mut parser);
    assert_eq!(records.len(), 1);
    let rec = records[0].as_ref().unwrap();
    assert_eq!(rec[0].0, "CREATED");
    assert_eq!(rec[0].1, AttributeValue::Date("20240101".to_string()));
}

#[test]
fn test_deleted_record_skipped() {
    let dbf_bytes = build_test_dbf(
        &[("NAME", b'C', 5, 0)],
        &[(0x2A, &[pad_right("DEL", 5)]), (0x20, &[pad_right("KEEP", 5)])],
    );
    let mut parser = utf8_parser(dbf_bytes);
    parser.parse_header().unwrap();
    let records = collect(&mut parser);
    assert_eq!(records.len(), 1);
    let rec = records[0].as_ref().unwrap();
    assert_eq!(rec[0].1, AttributeValue::Text("KEEP".to_string()));
}

#[test]
fn test_encoding_utf8_from_cpg() {
    let dbf_bytes = build_test_dbf(&[("CITY", b'C', 10, 0)], &[(0x20, &[pad_right("Tokyo", 10)])]);
    let mut parser = utf8_parser(dbf_bytes);
    parser.parse_header().unwrap();
    let records = collect(&mut parser);
    assert_eq!(records.len(), 1);
    let rec = records[0].as_ref().unwrap();
    assert_eq!(rec[0].1, AttributeValue::Text("Tokyo".to_string()));
}

#[test]
fn test_encoding_shiftjis_fallback() {
    let mut sjis_bytes = vec![0x93, 0x8C, 0x8B, 0x9E];
    sjis_bytes.resize(10, b' ');
    let dbf_bytes = build_test_dbf(&[("CITY", b'C', 10, 0)], &[(0x20, &[sjis_bytes])]);
    let mut parser = DbfParser::new(dbf_bytes, None).unwrap();
    parser.parse_header().unwrap();
    let records = collect(&mut parser);
    assert_eq!(records.len(), 1);
    let rec = records[0].as_ref().unwrap();
    assert_eq!(rec[0].1, AttributeValue::Text("東京".to_string()));
}

fn logical_value(input: &[u8]) -> AttributeValue {
    let dbf_bytes = build_test_dbf(&[("FLAG", b'L', 1, 0)], &[(0x20, &[input.to_vec()])]);
    let mut parser = utf8_parser(dbf_bytes);
    parser.parse_header().unwrap();
    let records = collect(&mut parser);
    let rec = records[0].as_ref().unwrap();
    rec[0].1.clone()
}

#[test]
fn test_parse_logical_field_true() {
    assert_eq!(logical_value(b"T"), AttributeValue::Logical(true));
}

#[test]
fn test_parse_logical_field_false() {
    assert_eq!(logical_value(b"F"), AttributeValue::Logical(false));
}

#[test]
fn test_parse_logical_field_yes() {
    assert_eq!(logical_value(b"Y"), AttributeValue::Logical(true));
}

#[test]
fn test_parse_logical_field_no() {
    assert_eq!(logical_value(b"N"), AttributeValue::Logical(false));
}

#[test]
fn test_parse_logical_field_null() {
    assert_eq!(logical_value(b"?"), AttributeValue::Null);
}

#[test]
fn test_parse_logical_lowercase() {
    assert_eq!(logical_value(b"t"), AttributeValue::Logical(true));
    assert_eq!(logical_value(b"f"), AttributeValue::Logical(false));
    assert_eq!(logical_value(b"y"), AttributeValue::Logical(true));
    assert_eq!(logical_value(b"n"), AttributeValue::Logical(false));
}

#[test]
fn test_parse_float_field() {
    let dbf_bytes = build_test_dbf(&[("RATIO", b'F', 10, 4)], &[(0x20, &[pad_left("3.1415", 10)])]);
    let mut parser = utf8_parser(dbf_bytes);
    parser.parse_header().unwrap();
    let records = collect(&mut parser);
    let rec = records[0].as_ref().unwrap();
    assert_eq!(rec[0].0, "RATIO");
    assert!((numeric(&rec[0].1) - 3.1415).abs() < 1e-10);
}

#[test]
fn test_parse_numeric_null_empty() {
    let dbf_bytes = build_test_dbf(&[("VAL", b'N', 10, 0)], &[(0x20, &[pad_right("", 10)])]);
    let mut parser = utf8_parser(dbf_bytes);
    parser.parse_header().unwrap();
    let records = collect(&mut parser);
    let rec = records[0].as_ref().unwrap();
    assert_eq!(rec[0].1, AttributeValue::Null);
}

#[test]
fn test_parse_numeric_null_asterisks() {
    let dbf_bytes = build_test_dbf(&[("VAL", b'N', 5, 0)], &[(0x20, &[b"*****".to_vec()])]);
    let mut parser = utf8_parser(dbf_bytes);
    parser.parse_header().unwrap();
    let records = collect(&mut parser);
    let rec = records[0].as_ref().unwrap();
    assert_eq!(rec[0].1, AttributeValue::Null);
}

#[test]
fn test_parse_character_null_empty() {
    let dbf_bytes = build_test_dbf(&[("NAME", b'C', 5, 0)], &[(0x20, &[pad_right("", 5)])]);
    let mut parser = utf8_parser(dbf_bytes);
    parser.parse_header().unwrap();
    let records = collect(&mut parser);
    let rec = records[0].as_ref().unwrap();
    assert_eq!(rec[0].1, AttributeValue::Null);
}

#[test]
fn test_parse_date_null_empty() {
    let dbf_bytes = build_test_dbf(&[("DT", b'D', 8, 0)], &[(0x20, &[pad_right("", 8)])]);
    let mut parser = utf8_parser(dbf_bytes);
    parser.parse_header().unwrap();
    let records = collect(&mut parser);
    let rec = records[0].as_ref().unwrap();
    assert_eq!(rec[0].1, AttributeValue::Null);
}

#[test]
fn test_multiple_fields_in_one_record() {
    let dbf_bytes = build_test_dbf(
        &[("NAME", b'C', 10, 0), ("VALUE", b'N', 10, 2), ("ACTIVE", b'L', 1, 0)],
        &[(0x20, &[pad_right("Tokyo", 10), pad_left("100.50", 10), b"T".to_vec()])],
    );
    let mut parser = utf8_parser(dbf_bytes);
    parser.parse_header().unwrap();
    let records = collect(&mut parser);
    assert_eq!(records.len(), 1);
    let rec = records[0].as_ref().unwrap();
    assert_eq!(rec.len(), 3);
    assert_eq!(rec[0].1, AttributeValue::Text("Tokyo".to_string()));
    assert_eq!(numeric(&rec[1].1), 100.50);
    assert_eq!(rec[2].1, AttributeValue::Logical(true));
}

#[test]
fn test_seek_to_records_and_reiterate() {
    let dbf_bytes = build_test_dbf(
        &[("NAME", b'C', 5, 0)],
        &[(0x20, &[pad_right("One", 5)]), (0x20, &[pad_right("Two", 5)])],
    );
    let mut parser = utf8_parser(dbf_bytes);
    parser.parse_header().unwrap();
    let records1 = collect(&mut parser);
    assert_eq!(records1.len(), 2);
    parser.seek_to_records().unwrap();
    let records2 = collect(&mut parser);
    assert_eq!(records2.len(), 2);
}

#[test]
fn test_multiple_records() {
    let dbf_bytes = build_test_dbf(
        &[("VAL", b'N', 5, 0)],
        &[(0x20, &[pad_left("1", 5)]), (0x20, &[pad_left("2", 5)]), (0x20, &[pad_left("3", 5)])],
    );
    let mut parser = utf8_parser(dbf_bytes);
    parser.parse_header().unwrap();
    let records = collect(&mut parser);
    assert_eq!(records.len(), 3);
    assert_eq!(numeric(&records[0].as_ref().unwrap()[0].1), 1.0);
    assert_eq!(numeric(&records[2].as_ref().unwrap()[0].1), 3.0);
}

#[test]
fn test_header_num_records() {
    let dbf_bytes = build_test_dbf(
        &[("X", b'C', 3, 0)],
        &[(0x20, &[pad_right("a", 3)]), (0x20, &[pad_right("b", 3)]), (0x20, &[pad_right("c", 3)])],
    );
    let mut parser = utf8_parser(dbf_bytes);
    let header = parser.parse_header().unwrap();
    assert_eq!(header.num_records, 3);
}

#[test]
fn test_header_record_size() {
    let dbf_bytes = build_test_dbf(
        &[("A", b'C', 10, 0), ("B", b'N', 5, 0)],
        &[(0x20, &[pad_right("x", 10), pad_left("1", 5)])],
    );
    let mut parser = utf8_parser(dbf_bytes);
    let header = parser.parse_header().unwrap();
    assert_eq!(header.record_size, 16);
}

#[test]
fn numeric_field_with_bad_text_is_corrupted() {
    let dbf_bytes = build_test_dbf(&[("VAL", b'N', 5, 0)], &[(0x20, &[pad_left("1x", 5)])]);
    let mut parser = utf8_parser(dbf_bytes);
    parser.parse_header().unwrap();
    let records = collect(&mut parser);
    assert!(matches!(records[0], Err(ShapefileError::CorruptedFile { .. })));
}

#[test]
fn unknown_field_type_is_corrupted() {
    let dbf_bytes = build_test_dbf(&[("VAL", b'X', 5, 0)], &[]);
    let mut parser = utf8_parser(dbf_bytes);
    assert!(matches!(parser.parse_header(), Err(ShapefileError::CorruptedFile { .. })));
}

#[test]
fn missing_terminator_is_corrupted() {
    let mut dbf_bytes = build_test_dbf(&[("VAL", b'C', 5, 0)], &[]);
    let last = dbf_bytes.len() - 1;
    dbf_bytes[last] = 0x00;
    let mut parser = utf8_parser(dbf_bytes);
    assert!(matches!(parser.parse_header(), Err(ShapefileError::CorruptedFile { .. })));
}

#[test]
fn invalid_utf8_text_is_encoding_error() {
    let dbf_bytes = build_test_dbf(&[("NAME", b'C', 2, 0)], &[(0x20, &[vec![0xC3, 0x28]])]);
    let mut parser = utf8_parser(dbf_bytes);
    parser.parse_header().unwrap();
    let records = collect(&mut parser);
    assert!(matches!(records[0], Err(ShapefileError::EncodingError { .. })));
}

#[test]
fn truncated_record_is_corrupted_and_layout_checks() {
    let mut dbf_bytes = build_test_dbf(&[("NAME", b'C', 5, 0)], &[(0x20, &[pad_right("abc", 5)])]);
    dbf_bytes.truncate(dbf_bytes.len() - 2);
    let mut parser = utf8_parser(dbf_bytes);
    parser.parse_header().unwrap();
    assert!(parser.layout_fits());
    assert!(matches!(parser.next_record(), Some(Err(ShapefileError::CorruptedFile { .. }))));
}

#[test]
fn hex_byte_writes_two_upper_case_digits() {
    for b in 0u8..=255 {
        assert_eq!(rs_shapefile::parsers::dbf_parser::hex_byte(b), format!("{:02X}", b));
    }
}

#[test]
fn an_unknown_label_decodes_as_shift_jis() {
    let dbf = build_test_dbf(&[("NAME", b'C', 6, 0)], &[(0x20, &[vec![0x93, 0x8C, 0x8B, 0x9E, 0x20, 0x20]])]);
    for label in [None, Some(b"no-such-encoding".as_slice()), Some(b"Shift_JIS".as_slice())] {
        let mut parser = DbfParser::new(dbf.clone(), label).unwrap();
        parser.parse_header().unwrap();
        let rec = parser.next_record().unwrap().unwrap();
        assert_eq!(rec[0].1, AttributeValue::Text("東京".to_string()));
    }
}
