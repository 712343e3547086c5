use rs_shapefile::{AttributeValue, Number, ShapeRecord, ShapeType, ShapefileError, ShapefileReader};

/// A main file of point records, with its header's bounding box.
fn build_shp_bytes(points: &[(f64, f64)]) -> Vec<u8> {
    let mut buf = Vec::new();
    let file_length_words = (100 + points.len() * 28) / 2;
    buf.extend_from_slice(&9994_i32.to_be_bytes());
    buf.extend_from_slice(&[0u8; 20]);
    buf.extend_from_slice(&(file_length_words as i32).to_be_bytes());
    buf.extend_from_slice(&1000_i32.to_le_bytes());
    buf.extend_from_slice(&1_i32.to_le_bytes());
    if points.is_empty() {
        buf.extend_from_slice(&[0u8; 64]);
    } else {
        let x_min = points.iter().map(|p| p.0).fold(f64::INFINITY, f64::min);
        let y_min = points.iter().map(|p| p.1).fold(f64::INFINITY, f64::min);
        let x_max = points.iter().map(|p| p.0).fold(f64::NEG_INFINITY, f64::max);
        let y_max = points.iter().map(|p| p.1).fold(f64::NEG_INFINITY, f64::max);
        buf.extend_from_slice(&x_min.to_le_bytes());
        buf.extend_from_slice(&y_min.to_le_bytes());
        buf.extend_from_slice(&x_max.to_le_bytes());
        buf.extend_from_slice(&y_max.to_le_bytes());
        buf.extend_from_slice(&[0u8; 32]);
    }
    for (i, (x, y)) in points.iter().enumerate() {
        buf.extend_from_slice(&((i + 1) as i32).to_be_bytes());
        buf.extend_from_slice(&10_i32.to_be_bytes());
        buf.extend_from_slice(&1_i32.to_le_bytes());
        buf.extend_from_slice(&x.to_le_bytes());
        buf.extend_from_slice(&y.to_le_bytes());
    }
    buf
}

fn descriptor(buf: &mut Vec<u8>, name: &str, ty: u8, len: u8, dec: u8) {
    let mut name_bytes = [0u8; 11];
    name_bytes[..name.len()].copy_from_slice(name.as_bytes());
    buf.extend_from_slice(&name_bytes);
    buf.push(ty);
    buf.extend_from_slice(&[0u8; 4]);
    buf.push(len);
    buf.push(dec);
    buf.extend_from_slice(&[0u8; 14]);
}

fn table_header(buf: &mut Vec<u8>, records: usize, fields: usize, record_size: u16) {
    buf.push(0x03);
    buf.extend_from_slice(&[24, 1, 1]);
    buf.extend_from_slice(&(records as i32).to_le_bytes());
    buf.extend_from_slice(&((32 + fields * 32 + 1) as i16).to_le_bytes());
    buf.extend_from_slice(&(record_size as i16).to_le_bytes());
    buf.extend_from_slice(&[0u8; 20]);
}

/// An attribute table with one Character field `NAME`.
fn build_dbf_bytes(names: &[&str], field_len: u8) -> Vec<u8> {
    let mut buf = Vec::new();
    table_header(&mut buf, names.len(), 1, 1 + field_len as u16);
    descriptor(&mut buf, "NAME", b'C', field_len, 0);
    buf.push(0x0D);
    for name in names {
        buf.push(0x20);
        let mut val = name.as_bytes().to_vec();
        val.resize(field_len as usize, b' ');
        buf.extend_from_slice(&val);
    }
    buf
}

/// An attribute table with `NAME` (Character) and `VALUE` (Numeric).
fn build_dbf_with_numeric(records: &[(&str, &str)], name_len: u8, val_len: u8) -> Vec<u8> {
    let mut buf = Vec::new();
    table_header(&mut buf, records.len(), 2, 1 + name_len as u16 + val_len as u16);
    descriptor(&mut buf, "NAME", b'C', name_len, 0);
    descriptor(&mut buf, "VALUE", b'N', val_len, 2);
    buf.push(0x0D);
    for (name, val) in records {
        buf.push(0x20);
        let mut n = name.as_bytes().to_vec();
        n.resize(name_len as usize, b' ');
        buf.extend_from_slice(&n);
        let mut v = vec![b' '; val_len as usize - val.len()];
        v.extend_from_slice(val.as_bytes());
        buf.extend_from_slice(&v);
    }
    buf
}

fn open(shp: Vec<u8>, dbf: Vec<u8>) -> ShapefileReader {
    ShapefileReader::open(shp, None, dbf, Some(b"UTF-8".to_vec()), None).unwrap()
}

fn num(n: &Number) -> f64 {
    match n {
        Number::Decimal(s) => s.parse().unwrap(),
        Number::Bits(b) => f64::from_bits(*b),
        Number::Integer(i) => *i as f64,
        Number::Single(b) => f32::from_bits(*b) as f64,
    }
}

fn all_by_iteration(reader: &mut ShapefileReader) -> Vec<Result<ShapeRecord, ShapefileError>> {
    reader.iter_records();
    let mut out = Vec::new();
    while let Some(r) = reader.next_iter_record() {
        out.push(r);
    }
    out
}

/// An index file for `n` consecutive point records.
fn build_shx_bytes(n: usize) -> Vec<u8> {
    let mut buf = Vec::new();
    buf.extend_from_slice(&9994_i32.to_be_bytes());
    buf.extend_from_slice(&[0u8; 20]);
    buf.extend_from_slice(&(((100 + 8 * n) / 2) as i32).to_be_bytes());
    buf.extend_from_slice(&1000_i32.to_le_bytes());
    buf.extend_from_slice(&1_i32.to_le_bytes());
    buf.extend_from_slice(&[0u8; 64]);
    for i in 0..n {
        buf.extend_from_slice(&(((100 + 28 * i) / 2) as i32).to_be_bytes());
        buf.extend_from_slice(&10_i32.to_be_bytes());
    }
    buf
}

#[test]
fn test_open_and_basic_properties() {
    let reader = open(build_shp_bytes(&[(1.0, 2.0), (3.0, 4.0)]), build_dbf_bytes(&["A", "B"], 10));
    assert_eq!(reader.shape_type(), ShapeType::Point);
    assert_eq!(reader.len(), 2);
    assert!(!reader.is_empty());
    assert!(reader.crs().is_none());
    assert_eq!(reader.fields().len(), 1);
    assert_eq!(reader.fields()[0].name, "NAME");
}

#[test]
fn test_records_all() {
    let mut reader = open(
        build_shp_bytes(&[(10.0, 20.0), (30.0, 40.0), (50.0, 60.0)]),
        build_dbf_bytes(&["AA", "BB", "CC"], 10),
    );
    let records = reader.records(None).unwrap();
    assert_eq!(records.len(), 3);
    assert_eq!(records[0].record_number, 1);
    assert_eq!(records[2].record_number, 3);
    let pt = records[0].geometry.as_point().unwrap();
    assert!((num(&pt.x) - 10.0).abs() < 1e-10);
    assert!((num(&pt.y) - 20.0).abs() < 1e-10);
    assert_eq!(records[0].get_attr("NAME"), Some(&AttributeValue::Text("AA".to_string())));
}

#[test]
fn test_records_with_limit() {
    let mut reader = open(
        build_shp_bytes(&[(1.0, 1.0), (2.0, 2.0), (3.0, 3.0)]),
        build_dbf_bytes(&["A", "B", "C"], 5),
    );
    assert_eq!(reader.records(Some(2)).unwrap().len(), 2);
    assert_eq!(reader.records(Some(0)).unwrap().len(), 0);
    assert_eq!(reader.records(Some(99)).unwrap().len(), 3);
}

#[test]
fn reader_test_iter_records() {
    let mut reader = open(build_shp_bytes(&[(1.0, 2.0), (3.0, 4.0)]), build_dbf_bytes(&["X", "Y"], 5));
    let records = all_by_iteration(&mut reader);
    assert_eq!(records.len(), 2);
    for r in &records {
        assert!(r.is_ok());
    }
}

#[test]
fn iteration_gives_what_records_gives() {
    let mut reader = open(
        build_shp_bytes(&[(1.0, 2.0), (3.0, 4.0), (5.0, 6.0)]),
        build_dbf_bytes(&["X", "Y", "Z"], 5),
    );
    let all = reader.records(None).unwrap();
    let iterated: Vec<ShapeRecord> = all_by_iteration(&mut reader).into_iter().map(|r| r.unwrap()).collect();
    assert_eq!(all.len(), iterated.len());
    for (a, b) in all.iter().zip(iterated.iter()) {
        assert_eq!(a.record_number, b.record_number);
        assert_eq!(a.geometry, b.geometry);
        assert_eq!(a.get_attr("NAME"), b.get_attr("NAME"));
    }
    // A second pass starts again from the first record.
    assert_eq!(all_by_iteration(&mut reader).len(), 3);
}

#[test]
fn test_bbox() {
    let reader = open(build_shp_bytes(&[(1.0, 2.0), (5.0, 8.0)]), build_dbf_bytes(&["A", "B"], 5));
    let bb = reader.bbox();
    assert!((num(&bb.x_min) - 1.0).abs() < 1e-10);
    assert!((num(&bb.y_min) - 2.0).abs() < 1e-10);
    assert!((num(&bb.x_max) - 5.0).abs() < 1e-10);
    assert!((num(&bb.y_max) - 8.0).abs() < 1e-10);
}

#[test]
fn test_is_empty() {
    let reader = open(build_shp_bytes(&[]), build_dbf_bytes(&[], 5));
    assert!(reader.is_empty());
    assert_eq!(reader.len(), 0);
}

#[test]
fn test_get_record_by_index() {
    let mut reader = open(build_shp_bytes(&[(10.0, 20.0), (30.0, 40.0)]), build_dbf_bytes(&["First", "Second"], 10));
    let rec = reader.get(0).unwrap().unwrap();
    let pt = rec.geometry.as_point().unwrap();
    assert!((num(&pt.x) - 10.0).abs() < 1e-10);
    assert_eq!(rec.get_attr("NAME"), Some(&AttributeValue::Text("First".to_string())));
    let rec1 = reader.get(1).unwrap().unwrap();
    let pt1 = rec1.geometry.as_point().unwrap();
    assert!((num(&pt1.x) - 30.0).abs() < 1e-10);
    assert_eq!(rec1.record_number, 2);
    assert!(reader.get(5).unwrap().is_none());
}

#[test]
fn get_with_an_index_file() {
    let shp = build_shp_bytes(&[(10.0, 20.0), (30.0, 40.0), (50.0, 60.0)]);
    let mut reader = ShapefileReader::open(shp, Some(build_shx_bytes(3)), build_dbf_bytes(&["A", "B", "C"], 5), None, None).unwrap();
    let rec = reader.get(2).unwrap().unwrap();
    assert!((num(&rec.geometry.as_point().unwrap().x) - 50.0).abs() < 1e-10);
    assert_eq!(rec.get_attr("NAME"), Some(&AttributeValue::Text("C".to_string())));
    assert!(reader.get(3).unwrap().is_none());
}

#[test]
fn test_filter_by_attribute_field_not_found() {
    let mut reader = open(build_shp_bytes(&[(1.0, 1.0)]), build_dbf_bytes(&["A"], 5));
    let result = reader.filter_by_attribute_starts_with("MISSING", "X");
    assert!(matches!(result, Err(ShapefileError::FieldNotFound(_))));
}

#[test]
fn reader_test_filter_by_attribute_starts_with() {
    let mut reader = open(
        build_shp_bytes(&[(1.0, 1.0), (2.0, 2.0), (3.0, 3.0)]),
        build_dbf_bytes(&["Tokyo", "Toyama", "Osaka"], 10),
    );
    let filtered = reader.filter_by_attribute_starts_with("NAME", "To").unwrap();
    assert_eq!(filtered.len(), 2);
    assert_eq!(filtered[0].record_number, 1);
    assert_eq!(filtered[1].record_number, 2);
}

#[test]
fn test_describe_numeric_field() {
    let mut reader = open(
        build_shp_bytes(&[(1.0, 1.0), (2.0, 2.0), (3.0, 3.0)]),
        build_dbf_with_numeric(&[("A", "10.00"), ("B", "20.00"), ("C", "30.00")], 10, 10),
    );
    let values: Vec<f64> = reader.numeric_values("VALUE").unwrap().iter().map(num).collect();
    assert_eq!(values, vec![10.0, 20.0, 30.0]);
}

#[test]
fn test_describe_field_not_found() {
    let mut reader = open(build_shp_bytes(&[(1.0, 1.0)]), build_dbf_bytes(&["A"], 5));
    assert!(matches!(reader.numeric_values("NONEXISTENT"), Err(ShapefileError::FieldNotFound(_))));
}

#[test]
fn test_describe_non_numeric_field() {
    let mut reader = open(build_shp_bytes(&[(1.0, 1.0)]), build_dbf_bytes(&["A"], 5));
    assert!(matches!(
        reader.numeric_values("NAME"),
        Err(ShapefileError::DescribeOnNonNumericField { .. })
    ));
}

#[test]
fn test_open_with_prj() {
    let prj = b"GEOGCS[\"GCS_WGS_1984\",DATUM[\"D_WGS_1984\",SPHEROID[\"WGS_1984\",6378137.0,298.257223563]],PRIMEM[\"Greenwich\",0.0],UNIT[\"Degree\",0.0174532925199433]]".to_vec();
    let reader = ShapefileReader::open(build_shp_bytes(&[(139.0, 35.0)]), None, build_dbf_bytes(&["Tokyo"], 10), None, Some(prj)).unwrap();
    assert!(reader.crs().is_some());
    assert!(reader.crs().unwrap().is_geographic());
}

#[test]
fn test_open_with_cpg() {
    let mut reader = ShapefileReader::open(
        build_shp_bytes(&[(1.0, 2.0)]),
        None,
        build_dbf_bytes(&["Hello"], 10),
        Some(b"UTF-8".to_vec()),
        None,
    )
    .unwrap();
    let records = reader.records(None).unwrap();
    assert_eq!(records.len(), 1);
    assert_eq!(records[0].get_attr("NAME"), Some(&AttributeValue::Text("Hello".to_string())));
}

#[test]
fn test_validate_field_exists_error() {
    let reader = open(build_shp_bytes(&[(1.0, 1.0)]), build_dbf_bytes(&["A"], 5));
    assert!(matches!(reader.validate_field_exists("NOPE"), Err(ShapefileError::FieldNotFound(_))));
    assert!(reader.validate_field_exists("NAME").is_ok());
}

#[test]
fn open_reports_the_first_bad_file() {
    let shp = build_shp_bytes(&[(1.0, 1.0)]);
    let dbf = build_dbf_bytes(&["A"], 5);
    assert!(matches!(
        ShapefileReader::open(shp.clone(), None, dbf.clone(), Some(vec![0xFF]), None),
        Err(ShapefileError::Io(_))
    ));
    assert!(matches!(
        ShapefileReader::open(shp.clone(), None, dbf.clone(), None, Some(vec![0xC3, 0x28])),
        Err(ShapefileError::Io(_))
    ));
    let mut bad_code = shp.clone();
    bad_code[3] = 0;
    assert!(matches!(
        ShapefileReader::open(bad_code, None, dbf.clone(), None, None),
        Err(ShapefileError::InvalidFileCode { .. })
    ));
    assert!(matches!(
        ShapefileReader::open(shp.clone(), None, vec![0u8; 10], None, None),
        Err(ShapefileError::CorruptedFile { .. })
    ));
    assert!(matches!(
        ShapefileReader::open(shp[..50].to_vec(), None, dbf, None, None),
        Err(ShapefileError::CorruptedFile { .. })
    ));
}

/// Rewrites the record number stored in each record header of a point file.
fn renumber(mut shp: Vec<u8>, numbers: &[i32]) -> Vec<u8> {
    for (i, n) in numbers.iter().enumerate() {
        let at = 100 + i * 28;
        shp[at..at + 4].copy_from_slice(&n.to_be_bytes());
    }
    shp
}

#[test]
fn record_numbers_are_the_ones_the_headers_store() {
    let shp = renumber(build_shp_bytes(&[(1.0, 2.0), (3.0, 4.0), (5.0, 6.0)]), &[7, 9, 42]);
    let mut reader = open(shp, build_dbf_bytes(&["A", "B", "C"], 5));
    let numbers: Vec<u32> = reader.records(None).unwrap().iter().map(|r| r.record_number).collect();
    assert_eq!(numbers, vec![7, 9, 42]);
    assert_eq!(reader.get(1).unwrap().unwrap().record_number, 9);
    reader.iter_records();
    let first = reader.next_iter_record().unwrap().unwrap();
    assert_eq!(first.record_number, 7);
}

fn sjis_dbf() -> Vec<u8> {
    let mut buf = Vec::new();
    table_header(&mut buf, 1, 1, 1 + 6);
    descriptor(&mut buf, "NAME", b'C', 6, 0);
    buf.push(0x0D);
    buf.push(0x20);
    buf.extend_from_slice(&[0x93, 0x8C, 0x8B, 0x9E, 0x20, 0x20]);
    buf
}

#[test]
fn text_is_decoded_as_shift_jis_without_a_known_code_page() {
    for cpg in [None, Some(b"no-such-encoding".to_vec())] {
        let mut reader =
            ShapefileReader::open(build_shp_bytes(&[(1.0, 2.0)]), None, sjis_dbf(), cpg, None).unwrap();
        let records = reader.records(None).unwrap();
        assert_eq!(records[0].get_attr("NAME"), Some(&AttributeValue::Text("東京".to_string())));
    }
}

#[test]
fn numeric_values_name_the_field_and_its_type() {
    let mut reader = open(build_shp_bytes(&[(1.0, 2.0)]), build_dbf_bytes(&["A"], 5));
    match reader.numeric_values("NAME") {
        Err(ShapefileError::DescribeOnNonNumericField { field, field_type }) => {
            assert_eq!(field, "NAME");
            assert_eq!(field_type, "Character");
        }
        other => panic!("unexpected result: {:?}", other),
    }
    match reader.numeric_values("MISSING") {
        Err(ShapefileError::FieldNotFound(f)) => assert_eq!(f, "MISSING"),
        other => panic!("unexpected result: {:?}", other),
    }
}
