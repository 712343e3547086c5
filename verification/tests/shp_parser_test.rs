use rs_shapefile::parsers::shp_parser::ShpParser;
use rs_shapefile::{Geometry, Number, ShapeType, ShapefileError};

fn minimal_shp_header(shape_type: i32) -> Vec<u8> {
    let mut buf = Vec::with_capacity(100);
    buf.extend_from_slice(&9994_i32.to_be_bytes());
    buf.extend_from_slice(&[0u8; 20]);
    buf.extend_from_slice(&50_i32.to_be_bytes());
    buf.extend_from_slice(&1000_i32.to_le_bytes());
    buf.extend_from_slice(&shape_type.to_le_bytes());
    buf.extend_from_slice(&[0u8; 64]);
    buf
}

fn build_point_record(record_number: i32, x: f64, y: f64) -> Vec<u8> {
    let mut buf = Vec::new();
    buf.extend_from_slice(&record_number.to_be_bytes());
    buf.extend_from_slice(&10_i32.to_be_bytes());
    buf.extend_from_slice(&1_i32.to_le_bytes());
    buf.extend_from_slice(&x.to_le_bytes());
    buf.extend_from_slice(&y.to_le_bytes());
    buf
}

fn build_null_record(record_number: i32) -> Vec<u8> {
    let mut buf = Vec::new();
    buf.extend_from_slice(&record_number.to_be_bytes());
    buf.extend_from_slice(&2_i32.to_be_bytes());
    buf.extend_from_slice(&0_i32.to_le_bytes());
    buf
}

fn build_polyline_record(record_number: i32, shape_type: i32, parts: &[i32], points: &[(f64, f64)]) -> Vec<u8> {
    let mut content = Vec::new();
    content.extend_from_slice(&shape_type.to_le_bytes());
    content.extend_from_slice(&[0u8; 32]);
    content.extend_from_slice(&(parts.len() as i32).to_le_bytes());
    content.extend_from_slice(&(points.len() as i32).to_le_bytes());
    for p in parts {
        content.extend_from_slice(&p.to_le_bytes());
    }
    for (x, y) in points {
        content.extend_from_slice(&x.to_le_bytes());
        content.extend_from_slice(&y.to_le_bytes());
    }
    let mut buf = Vec::new();
    buf.extend_from_slice(&record_number.to_be_bytes());
    buf.extend_from_slice(&((content.len() / 2) as i32).to_be_bytes());
    buf.extend_from_slice(&content);
    buf
}

fn build_multipoint_record(record_number: i32, points: &[(f64, f64)]) -> Vec<u8> {
    let mut content = Vec::new();
    content.extend_from_slice(&8_i32.to_le_bytes());
    content.extend_from_slice(&[0u8; 32]);
    content.extend_from_slice(&(points.len() as i32).to_le_bytes());
    for (x, y) in points {
        content.extend_from_slice(&x.to_le_bytes());
        content.extend_from_slice(&y.to_le_bytes());
    }
    let mut buf = Vec::new();
    buf.extend_from_slice(&record_number.to_be_bytes());
    buf.extend_from_slice(&((content.len() / 2) as i32).to_be_bytes());
    buf.extend_from_slice(&content);
    buf
}

fn build_shx_for_points(num_records: usize, shp_header_size: u64) -> Vec<u8> {
    let file_length_bytes = 100 + num_records * 8;
    let file_length_words = file_length_bytes / 2;
    let mut buf = Vec::with_capacity(file_length_bytes);
    buf.extend_from_slice(&9994_i32.to_be_bytes());
    buf.extend_from_slice(&[0u8; 20]);
    buf.extend_from_slice(&(file_length_words as i32).to_be_bytes());
    buf.extend_from_slice(&1000_i32.to_le_bytes());
    buf.extend_from_slice(&1_i32.to_le_bytes());
    buf.extend_from_slice(&[0u8; 64]);
    let record_size: u64 = 28;
    for i in 0..num_records {
        let offset_bytes = shp_header_size + (i as u64) * record_size;
        let offset_words = offset_bytes / 2;
        buf.extend_from_slice(&(offset_words as i32).to_be_bytes());
        buf.extend_from_slice(&10_i32.to_be_bytes());
    }
    buf
}

fn f(n: &Number) -> f64 {
    match n {
        Number::Bits(b) => f64::from_bits(*b),
        Number::Decimal(s) => s.parse().unwrap(),
        Number::Integer(i) => *i as f64,
        Number::Single(b) => f32::from_bits(*b) as f64,
    }
}

#[test]
fn test_shape_type_try_from_all_valid() {
    assert_eq!(ShapeType::try_from(0).unwrap(), ShapeType::Null);
    assert_eq!(ShapeType::try_from(1).unwrap(), ShapeType::Point);
    assert_eq!(ShapeType::try_from(3).unwrap(), ShapeType::Polyline);
    assert_eq!(ShapeType::try_from(5).unwrap(), ShapeType::Polygon);
    assert_eq!(ShapeType::try_from(8).unwrap(), ShapeType::MultiPoint);
    assert_eq!(ShapeType::try_from(11).unwrap(), ShapeType::PointZ);
    assert_eq!(ShapeType::try_from(13).unwrap(), ShapeType::PolylineZ);
    assert_eq!(ShapeType::try_from(15).unwrap(), ShapeType::PolygonZ);
    assert_eq!(ShapeType::try_from(21).unwrap(), ShapeType::PointM);
    assert_eq!(ShapeType::try_from(23).unwrap(), ShapeType::PolylineM);
    assert_eq!(ShapeType::try_from(25).unwrap(), ShapeType::PolygonM);
    assert_eq!(ShapeType::try_from(31).unwrap(), ShapeType::MultiPatch);
}

#[test]
fn test_shape_type_try_from_invalid() {
    assert!(ShapeType::try_from(2).is_err());
    assert!(ShapeType::try_from(-1).is_err());
    assert!(ShapeType::try_from(100).is_err());
}

#[test]
fn test_has_shx_false() {
    let data = minimal_shp_header(1);
    let parser = ShpParser::new(data, None).unwrap();
    assert!(!parser.has_shx());
}

#[test]
fn test_has_shx_true() {
    let shp_data = minimal_shp_header(1);
    let shx_data = build_shx_for_points(0, 100);
    let parser = ShpParser::new(shp_data, Some(shx_data)).unwrap();
    assert!(parser.has_shx());
}

#[test]
fn test_parse_header_point_type() {
    let data = minimal_shp_header(1);
    let mut parser = ShpParser::new(data, None).unwrap();
    let header = parser.parse_header().unwrap();
    assert_eq!(header.shape_type, ShapeType::Point);
    assert_eq!(header.file_length, 50);
}

#[test]
fn test_invalid_file_code() {
    let mut data = minimal_shp_header(1);
    data[0..4].copy_from_slice(&1234_i32.to_be_bytes());
    let mut parser = ShpParser::new(data, None).unwrap();
    assert!(matches!(parser.parse_header(), Err(ShapefileError::InvalidFileCode { actual: 1234 })));
}

#[test]
fn test_invalid_version() {
    let mut data = minimal_shp_header(1);
    data[28..32].copy_from_slice(&999_i32.to_le_bytes());
    let mut parser = ShpParser::new(data, None).unwrap();
    assert!(matches!(parser.parse_header(), Err(ShapefileError::InvalidVersion { actual: 999 })));
}

#[test]
fn test_unsupported_shape_type_in_header() {
    let data = minimal_shp_header(2);
    let mut parser = ShpParser::new(data, None).unwrap();
    assert!(matches!(parser.parse_header(), Err(ShapefileError::UnsupportedShapeType(2))));
}

#[test]
fn test_parse_point_record() {
    let mut data = minimal_shp_header(1);
    data.extend_from_slice(&build_point_record(1, 139.6917, 35.6895));
    let mut parser = ShpParser::new(data, None).unwrap();
    parser.parse_header().unwrap();
    match parser.parse_record().unwrap() {
        Geometry::Point(p) => {
            assert!((f(&p.x) - 139.6917).abs() < 1e-10);
            assert!((f(&p.y) - 35.6895).abs() < 1e-10);
        }
        other => panic!("expected Point, got {:?}", other),
    }
}

#[test]
fn test_parse_null_record() {
    let mut data = minimal_shp_header(0);
    data.extend_from_slice(&build_null_record(1));
    let mut parser = ShpParser::new(data, None).unwrap();
    parser.parse_header().unwrap();
    assert_eq!(parser.parse_record().unwrap(), Geometry::Null);
}

#[test]
fn test_parse_polyline_two_parts() {
    let mut data = minimal_shp_header(3);
    data.extend_from_slice(&build_polyline_record(1, 3, &[0, 2], &[(0.0, 0.0), (1.0, 1.0), (2.0, 2.0), (3.0, 3.0), (4.0, 4.0)]));
    let mut parser = ShpParser::new(data, None).unwrap();
    parser.parse_header().unwrap();
    match parser.parse_record().unwrap() {
        Geometry::Polyline(pl) => {
            assert_eq!(pl.parts.len(), 2);
            assert_eq!(pl.parts[0].len(), 2);
            assert_eq!(pl.parts[1].len(), 3);
            assert_eq!(f(&pl.parts[1][2].x), 4.0);
        }
        other => panic!("expected Polyline, got {:?}", other),
    }
}

#[test]
fn test_parse_polygon_rings() {
    let mut data = minimal_shp_header(5);
    let pts = [(0.0, 0.0), (0.0, 10.0), (10.0, 10.0), (10.0, 0.0), (0.0, 0.0)];
    data.extend_from_slice(&build_polyline_record(1, 5, &[0], &pts));
    let mut parser = ShpParser::new(data, None).unwrap();
    parser.parse_header().unwrap();
    match parser.parse_record().unwrap() {
        Geometry::Polygon(pg) => {
            assert_eq!(pg.rings.len(), 1);
            assert_eq!(pg.rings[0].points.len(), 5);
        }
        other => panic!("expected Polygon, got {:?}", other),
    }
}

#[test]
fn test_parse_multipoint_record() {
    let mut data = minimal_shp_header(8);
    data.extend_from_slice(&build_multipoint_record(1, &[(1.0, 2.0), (3.0, 4.0)]));
    let mut parser = ShpParser::new(data, None).unwrap();
    parser.parse_header().unwrap();
    match parser.parse_record().unwrap() {
        Geometry::MultiPoint(mp) => {
            assert_eq!(mp.points.len(), 2);
            assert_eq!(f(&mp.points[1].y), 4.0);
        }
        other => panic!("expected MultiPoint, got {:?}", other),
    }
}

#[test]
fn test_truncated_record_is_corrupted() {
    let mut data = minimal_shp_header(1);
    let rec = build_point_record(1, 1.0, 2.0);
    data.extend_from_slice(&rec[..20]);
    let mut parser = ShpParser::new(data, None).unwrap();
    parser.parse_header().unwrap();
    assert!(matches!(parser.parse_record(), Err(ShapefileError::CorruptedFile { .. })));
}

#[test]
fn test_unsupported_record_type() {
    let mut data = minimal_shp_header(1);
    let mut rec = Vec::new();
    rec.extend_from_slice(&1_i32.to_be_bytes());
    rec.extend_from_slice(&2_i32.to_be_bytes());
    rec.extend_from_slice(&11_i32.to_le_bytes());
    data.extend_from_slice(&rec);
    let mut parser = ShpParser::new(data, None).unwrap();
    parser.parse_header().unwrap();
    assert!(matches!(parser.parse_record(), Err(ShapefileError::UnsupportedShapeType(11))));
}

#[test]
fn test_seek_to_records_and_iterate() {
    let mut data = minimal_shp_header(1);
    data.extend_from_slice(&build_point_record(1, 10.0, 20.0));
    data.extend_from_slice(&build_point_record(2, 30.0, 40.0));
    let mut parser = ShpParser::new(data, None).unwrap();
    parser.parse_header().unwrap();
    let first = parser.iter_records();
    assert_eq!(first.len(), 2);
    parser.seek_to_records().unwrap();
    let again = parser.iter_records();
    assert_eq!(again.len(), 2);
    match again[1].as_ref().unwrap() {
        Geometry::Point(p) => assert_eq!(f(&p.x), 30.0),
        other => panic!("expected Point, got {:?}", other),
    }
    parser.seek_to_records().unwrap();
    assert!(parser.next_record().is_some());
    assert!(parser.next_record().is_some());
    assert!(parser.next_record().is_none());
}

#[test]
fn test_read_at_with_shx() {
    let mut shp_data = minimal_shp_header(1);
    shp_data.extend_from_slice(&build_point_record(1, 100.0, 200.0));
    shp_data.extend_from_slice(&build_point_record(2, 300.0, 400.0));
    let shx_data = build_shx_for_points(2, 100);
    let mut parser = ShpParser::new(shp_data, Some(shx_data)).unwrap();
    let geom = parser.read_at(1).unwrap().unwrap();
    let p = geom.as_point().unwrap();
    assert!((f(&p.x) - 300.0).abs() < 1e-10);
    assert!((f(&p.y) - 400.0).abs() < 1e-10);
    let geom0 = parser.read_at(0).unwrap().unwrap();
    assert!((f(&geom0.as_point().unwrap().x) - 100.0).abs() < 1e-10);
    assert!(parser.read_at(2).unwrap().is_none());
}

#[test]
fn test_read_at_without_shx_fails() {
    let data = minimal_shp_header(1);
    let mut parser = ShpParser::new(data, None).unwrap();
    assert!(matches!(parser.read_at(0), Err(ShapefileError::CorruptedFile { .. })));
}

#[test]
fn test_shx_bad_file_code() {
    let shp_data = minimal_shp_header(1);
    let mut shx_data = build_shx_for_points(0, 100);
    shx_data[0..4].copy_from_slice(&1_i32.to_be_bytes());
    assert!(matches!(ShpParser::new(shp_data, Some(shx_data)), Err(ShapefileError::InvalidFileCode { actual: 1 })));
}

fn build_polygon_record(record_number: i32, parts: &[i32], points: &[(f64, f64)]) -> Vec<u8> {
    build_polyline_record(record_number, 5, parts, points)
}

#[test]
fn test_parse_header_file_code() {
    let mut parser = ShpParser::new(minimal_shp_header(3), None).unwrap();
    assert_eq!(parser.parse_header().unwrap().shape_type, ShapeType::Polyline);
}

#[test]
fn test_parse_header_shape_type() {
    let mut parser = ShpParser::new(minimal_shp_header(1), None).unwrap();
    assert_eq!(parser.parse_header().unwrap().shape_type, ShapeType::Point);
}

#[test]
fn test_parse_header_invalid_file_code() {
    let mut data = minimal_shp_header(3);
    data[0..4].copy_from_slice(&1234_i32.to_be_bytes());
    let mut parser = ShpParser::new(data, None).unwrap();
    assert!(matches!(parser.parse_header(), Err(ShapefileError::InvalidFileCode { actual: 1234 })));
}

#[test]
fn test_parse_header_invalid_version() {
    let mut data = Vec::with_capacity(100);
    data.extend_from_slice(&9994_i32.to_be_bytes());
    data.extend_from_slice(&[0u8; 20]);
    data.extend_from_slice(&50_i32.to_be_bytes());
    data.extend_from_slice(&999_i32.to_le_bytes());
    data.extend_from_slice(&1_i32.to_le_bytes());
    data.extend_from_slice(&[0u8; 64]);
    let mut parser = ShpParser::new(data, None).unwrap();
    assert!(matches!(parser.parse_header(), Err(ShapefileError::InvalidVersion { actual: 999 })));
}

#[test]
fn test_parse_polyline_record_1part_2pt() {
    let record = build_polyline_record(1, 3, &[0], &[(0.0, 0.0), (1.0, 1.0)]);
    let mut parser = ShpParser::new(record, None).unwrap();
    let geom = parser.parse_record().unwrap();
    let polyline = geom.as_polyline().unwrap();
    assert_eq!(polyline.parts.len(), 1);
    assert_eq!(polyline.parts[0].len(), 2);
    assert!((f(&polyline.parts[0][0].x) - 0.0).abs() < 1e-10);
    assert!((f(&polyline.parts[0][0].y) - 0.0).abs() < 1e-10);
    assert!((f(&polyline.parts[0][1].x) - 1.0).abs() < 1e-10);
    assert!((f(&polyline.parts[0][1].y) - 1.0).abs() < 1e-10);
}

#[test]
fn test_parse_polyline_num_parts() {
    let points = [(0.0, 0.0), (1.0, 1.0), (2.0, 2.0), (3.0, 3.0)];
    let mut parser = ShpParser::new(build_polyline_record(1, 3, &[0, 2], &points), None).unwrap();
    let geom = parser.parse_record().unwrap();
    assert_eq!(geom.as_polyline().unwrap().num_parts(), 2);
}

#[test]
fn test_parse_polyline_num_points() {
    let points = [(0.0, 0.0), (1.0, 1.0), (2.0, 2.0), (3.0, 3.0), (4.0, 4.0)];
    let mut parser = ShpParser::new(build_polyline_record(1, 3, &[0, 2], &points), None).unwrap();
    let geom = parser.parse_record().unwrap();
    assert_eq!(geom.as_polyline().unwrap().num_points(), 5);
}

#[test]
fn test_parse_polyline_length() {
    let mut parser = ShpParser::new(build_polyline_record(1, 3, &[0], &[(0.0, 0.0), (3.0, 4.0)]), None).unwrap();
    let geom = parser.parse_record().unwrap();
    let part = &geom.as_polyline().unwrap().parts[0];
    let (dx, dy) = (f(&part[1].x) - f(&part[0].x), f(&part[1].y) - f(&part[0].y));
    assert!(((dx * dx + dy * dy).sqrt() - 5.0).abs() < 1e-10);
}

#[test]
fn test_parse_polygon_record() {
    let points = [(0.0, 0.0), (4.0, 0.0), (4.0, 4.0), (0.0, 4.0), (0.0, 0.0)];
    let mut parser = ShpParser::new(build_polygon_record(1, &[0], &points), None).unwrap();
    let geom = parser.parse_record().unwrap();
    let polygon = geom.as_polygon().unwrap();
    assert_eq!(polygon.rings.len(), 1);
    assert_eq!(polygon.rings[0].points.len(), 5);
    assert!((f(&polygon.rings[0].points[0].x) - 0.0).abs() < 1e-10);
    assert!((f(&polygon.rings[0].points[1].x) - 4.0).abs() < 1e-10);
}

#[test]
fn test_unknown_shape_type_error() {
    assert!(matches!(ShapeType::try_from(999), Err(ShapefileError::UnsupportedShapeType(999))));
}

#[test]
fn shp_parser_test_iter_records_count() {
    let mut data = minimal_shp_header(1);
    data.extend_from_slice(&build_point_record(1, 1.0, 2.0));
    data.extend_from_slice(&build_point_record(2, 3.0, 4.0));
    data.extend_from_slice(&build_point_record(3, 5.0, 6.0));
    let mut parser = ShpParser::new(data, None).unwrap();
    parser.parse_header().unwrap();
    let records = parser.iter_records();
    assert_eq!(records.len(), 3);
    for r in &records {
        assert!(r.is_ok());
    }
}

#[test]
fn test_seek_to_records() {
    let mut data = minimal_shp_header(1);
    data.extend_from_slice(&build_point_record(1, 10.0, 20.0));
    let mut parser = ShpParser::new(data, None).unwrap();
    parser.parse_header().unwrap();
    let geom1 = parser.parse_record().unwrap();
    assert!((f(&geom1.as_point().unwrap().x) - 10.0).abs() < 1e-10);
    parser.seek_to_records().unwrap();
    let geom2 = parser.parse_record().unwrap();
    assert!((f(&geom2.as_point().unwrap().x) - 10.0).abs() < 1e-10);
}

#[test]
fn test_read_at_without_shx_returns_error() {
    let mut parser = ShpParser::new(minimal_shp_header(1), None).unwrap();
    assert!(matches!(parser.read_at(0), Err(ShapefileError::CorruptedFile { .. })));
}

#[test]
fn test_parse_unsupported_record_shape_type() {
    let mut buf = Vec::new();
    buf.extend_from_slice(&1_i32.to_be_bytes());
    buf.extend_from_slice(&2_i32.to_be_bytes());
    buf.extend_from_slice(&31_i32.to_le_bytes());
    let mut parser = ShpParser::new(buf, None).unwrap();
    assert!(matches!(parser.parse_record(), Err(ShapefileError::UnsupportedShapeType(31))));
}

#[test]
fn shp_parser_test_parse_polygon_with_hole() {
    let points = [
        (0.0, 0.0),
        (10.0, 0.0),
        (10.0, 10.0),
        (0.0, 10.0),
        (0.0, 0.0),
        (2.0, 2.0),
        (3.0, 2.0),
        (3.0, 3.0),
        (2.0, 3.0),
        (2.0, 2.0),
    ];
    let mut parser = ShpParser::new(build_polygon_record(1, &[0, 5], &points), None).unwrap();
    let geom = parser.parse_record().unwrap();
    let polygon = geom.as_polygon().unwrap();
    assert_eq!(polygon.rings.len(), 2);
    assert_eq!(polygon.exterior().points.len(), 5);
    assert_eq!(polygon.holes().len(), 1);
    assert_eq!(polygon.holes()[0].points.len(), 5);
}

#[test]
fn test_parse_polyline_multipart() {
    let points = [(0.0, 0.0), (1.0, 1.0), (2.0, 2.0), (10.0, 10.0), (11.0, 11.0)];
    let mut parser = ShpParser::new(build_polyline_record(1, 3, &[0, 3], &points), None).unwrap();
    let geom = parser.parse_record().unwrap();
    let polyline = geom.as_polyline().unwrap();
    assert_eq!(polyline.parts.len(), 2);
    assert_eq!(polyline.parts[0].len(), 3);
    assert_eq!(polyline.parts[1].len(), 2);
}

#[test]
fn test_read_at_out_of_bounds() {
    let mut parser = ShpParser::new(minimal_shp_header(1), Some(build_shx_for_points(1, 100))).unwrap();
    assert!(parser.read_at(5).unwrap().is_none());
}
