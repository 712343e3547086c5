use rs_shapefile::mvt_reader::{
    decode_attributes, decode_geometry, decode_zigzag, encode_command, encode_zigzag,
    geom_type_from, geometry_overflows, mvt_value_to_attribute, shoelace_signed, GeomType,
    MvtFeature, MvtLayer, MvtTile, MvtValue, PixelGeometry,
};
use rs_shapefile::{AttributeValue, LayerFilter, MvtReader, Number, ShapefileError, TileCoord};

fn value() -> MvtValue {
    MvtValue {
        string_value: None,
        float_value: None,
        double_value: None,
        int_value: None,
        uint_value: None,
        sint_value: None,
        bool_value: None,
    }
}

fn text_value(s: &str) -> MvtValue {
    MvtValue { string_value: Some(s.to_string()), ..value() }
}

fn feature(geom_type: i32, geometry: Vec<u32>, tags: Vec<u32>) -> MvtFeature {
    MvtFeature { id: Some(1), tags, geom_type: Some(geom_type), geometry }
}

fn point_layer(name: &str, keys: Vec<String>, values: Vec<MvtValue>, tags: Vec<u32>) -> MvtLayer {
    MvtLayer {
        version: 2,
        name: name.to_string(),
        features: vec![feature(1, vec![encode_command(1, 1), encode_zigzag(100), encode_zigzag(200)], tags)],
        keys,
        values,
        extent: Some(4096),
    }
}

fn basic_point_layer(layer_name: &str, attr_value: &str) -> MvtLayer {
    point_layer(layer_name, vec!["name".to_string()], vec![text_value(attr_value)], vec![0, 0])
}

#[test]
fn test_decode_zigzag_positive() {
    assert_eq!(decode_zigzag(0), 0);
    assert_eq!(decode_zigzag(2), 1);
    assert_eq!(decode_zigzag(4), 2);
    assert_eq!(decode_zigzag(100), 50);
}

#[test]
fn test_decode_zigzag_negative() {
    assert_eq!(decode_zigzag(1), -1);
    assert_eq!(decode_zigzag(3), -2);
    assert_eq!(decode_zigzag(5), -3);
}

#[test]
fn zigzag_round_trip_extremes() {
    for n in [0, 1, -1, 2, -2, 12345, -12345, i32::MAX, i32::MIN] {
        assert_eq!(decode_zigzag(encode_zigzag(n)), n);
    }
    assert_eq!(encode_zigzag(-1), 1);
    assert_eq!(encode_zigzag(i32::MIN), u32::MAX);
    assert_eq!(decode_zigzag(u32::MAX), i32::MIN);
}

#[test]
fn command_words() {
    assert_eq!(encode_command(1, 1), 9);
    assert_eq!(encode_command(2, 3), 26);
    assert_eq!(encode_command(7, 1), 15);
    assert_eq!(encode_command(9, 0), 1);
}

#[test]
fn test_decode_moveto_command() {
    let f = feature(1, vec![encode_command(1, 1), encode_zigzag(100), encode_zigzag(200)], vec![]);
    assert_eq!(decode_geometry(&f).unwrap(), PixelGeometry::Point((100, 200)));
}

#[test]
fn test_decode_lineto_command() {
    let f = feature(
        2,
        vec![
            encode_command(1, 1),
            encode_zigzag(0),
            encode_zigzag(0),
            encode_command(2, 2),
            encode_zigzag(100),
            encode_zigzag(0),
            encode_zigzag(0),
            encode_zigzag(100),
        ],
        vec![],
    );
    match decode_geometry(&f).unwrap() {
        PixelGeometry::Polyline(parts) => {
            assert_eq!(parts.len(), 1);
            assert_eq!(parts[0].len(), 3);
            assert_eq!(parts[0], vec![(0, 0), (100, 0), (100, 100)]);
        }
        other => panic!("expected Polyline, got {:?}", other),
    }
}

#[test]
fn test_decode_closepath_command() {
    let f = feature(
        3,
        vec![
            encode_command(1, 1),
            encode_zigzag(0),
            encode_zigzag(0),
            encode_command(2, 2),
            encode_zigzag(100),
            encode_zigzag(0),
            encode_zigzag(0),
            encode_zigzag(100),
            encode_command(7, 1),
        ],
        vec![],
    );
    match decode_geometry(&f).unwrap() {
        PixelGeometry::Polygon(rings) => {
            assert!(!rings.is_empty());
            let ring = &rings[0];
            assert_eq!(ring.first(), ring.last());
            assert_eq!(ring.len(), 4);
        }
        other => panic!("expected Polygon, got {:?}", other),
    }
}

#[test]
fn two_exterior_rings_merge_into_one_polygon() {
    let square = |x: i32| {
        vec![
            encode_command(1, 1),
            encode_zigzag(x),
            encode_zigzag(0),
            encode_command(2, 3),
            encode_zigzag(10),
            encode_zigzag(0),
            encode_zigzag(0),
            encode_zigzag(10),
            encode_zigzag(-10),
            encode_zigzag(0),
            encode_command(7, 1),
        ]
    };
    let mut cmds = square(0);
    cmds.extend(square(20));
    let f = feature(3, cmds, vec![]);
    match decode_geometry(&f).unwrap() {
        PixelGeometry::Polygon(rings) => {
            assert_eq!(rings.len(), 2);
            assert_eq!(rings[1][0], (20, 10));
        }
        other => panic!("expected Polygon, got {:?}", other),
    }
}

#[test]
fn multiple_moveto_points_make_multipoint() {
    let f = feature(
        1,
        vec![encode_command(1, 2), encode_zigzag(5), encode_zigzag(5), encode_zigzag(-2), encode_zigzag(3)],
        vec![],
    );
    assert_eq!(decode_geometry(&f).unwrap(), PixelGeometry::MultiPoint(vec![(5, 5), (3, 8)]));
}

#[test]
fn linestring_moveto_starts_new_part() {
    let f = feature(
        2,
        vec![
            encode_command(1, 1), encode_zigzag(0), encode_zigzag(0),
            encode_command(2, 1), encode_zigzag(1), encode_zigzag(1),
            encode_command(1, 1), encode_zigzag(10), encode_zigzag(10),
            encode_command(2, 1), encode_zigzag(1), encode_zigzag(0),
        ],
        vec![],
    );
    match decode_geometry(&f).unwrap() {
        PixelGeometry::Polyline(parts) => {
            assert_eq!(parts, vec![vec![(0, 0), (1, 1)], vec![(11, 11), (12, 11)]]);
        }
        other => panic!("expected Polyline, got {:?}", other),
    }
}

#[test]
fn malformed_streams_are_invalid() {
    let truncated = feature(1, vec![encode_command(1, 1), encode_zigzag(1)], vec![]);
    assert!(matches!(decode_geometry(&truncated), Err(ShapefileError::InvalidMvt { .. })));
    let lineto_in_point = feature(1, vec![encode_command(2, 1), 0, 0], vec![]);
    assert!(matches!(decode_geometry(&lineto_in_point), Err(ShapefileError::InvalidMvt { .. })));
    let close_in_line = feature(2, vec![encode_command(7, 1)], vec![]);
    assert!(matches!(decode_geometry(&close_in_line), Err(ShapefileError::InvalidMvt { .. })));
}

#[test]
fn unknown_type_is_null_and_overflow_detected() {
    let unknown = MvtFeature { id: None, tags: vec![], geom_type: None, geometry: vec![1, 2, 3] };
    assert_eq!(decode_geometry(&unknown).unwrap(), PixelGeometry::Null);
    assert_eq!(geom_type_from(Some(4)), GeomType::Unknown);
    let big = feature(
        1,
        vec![encode_command(1, 2), encode_zigzag(i32::MAX), encode_zigzag(0), encode_zigzag(1), encode_zigzag(0)],
        vec![],
    );
    assert!(geometry_overflows(&big));
    let fine = feature(1, vec![encode_command(1, 1), encode_zigzag(i32::MAX), encode_zigzag(0)], vec![]);
    assert!(!geometry_overflows(&fine));
}

#[test]
fn test_polygon_winding_exterior() {
    let coords = vec![(0, 0), (100, 0), (100, 100), (0, 100), (0, 0)];
    let area = shoelace_signed(&coords);
    assert!(area > 0, "expected positive for CW, got {area}");
    assert_eq!(area, 20000);
}

#[test]
fn test_polygon_winding_interior() {
    let coords = vec![(0, 0), (0, 100), (100, 100), (100, 0), (0, 0)];
    let area = shoelace_signed(&coords);
    assert!(area < 0, "expected negative for CCW, got {area}");
}

#[test]
fn shoelace_needs_three_points() {
    assert_eq!(shoelace_signed(&vec![(0, 0), (5, 5)]), 0);
}

#[test]
fn test_mvt_value_string() {
    assert_eq!(mvt_value_to_attribute(&text_value("hello")), AttributeValue::Text("hello".to_string()));
}

#[test]
fn test_mvt_value_int() {
    let val = MvtValue { int_value: Some(42), ..value() };
    assert_eq!(mvt_value_to_attribute(&val), AttributeValue::Numeric(Number::Integer(42)));
}

#[test]
fn test_mvt_value_bool() {
    let val = MvtValue { bool_value: Some(true), ..value() };
    assert_eq!(mvt_value_to_attribute(&val), AttributeValue::Logical(true));
}

#[test]
fn mvt_value_precedence() {
    let val = MvtValue { double_value: Some(2.5f64.to_bits()), int_value: Some(7), ..value() };
    assert_eq!(mvt_value_to_attribute(&val), AttributeValue::Numeric(Number::Bits(2.5f64.to_bits())));
    let val = MvtValue { float_value: Some(1.5f32.to_bits()), uint_value: Some(7), ..value() };
    assert_eq!(mvt_value_to_attribute(&val), AttributeValue::Numeric(Number::Single(1.5f32.to_bits())));
    assert_eq!(mvt_value_to_attribute(&value()), AttributeValue::Null);
}

#[test]
fn attributes_skip_out_of_range_tags() {
    let layer = MvtLayer {
        version: 2,
        name: "l".to_string(),
        features: vec![],
        keys: vec!["a".to_string(), "b".to_string()],
        values: vec![text_value("x"), MvtValue { sint_value: Some(-3), ..value() }],
        extent: None,
    };
    let f = feature(1, vec![], vec![0, 0, 1, 1, 5, 0, 0, 1, 1]);
    let attrs = decode_attributes(&f, &layer);
    assert_eq!(attrs.get("a"), Some(&AttributeValue::Numeric(Number::Integer(-3))));
    assert_eq!(attrs.get("b"), Some(&AttributeValue::Numeric(Number::Integer(-3))));
}

#[test]
fn test_layer_name_injected() {
    let tile = MvtTile { layers: vec![point_layer("roads", vec![], vec![], vec![])] };
    let reader = MvtReader::from_tile(&tile, TileCoord::new(14, 14552, 6451)).unwrap();
    let rec = reader.get(0).unwrap();
    assert_eq!(rec.attributes.get("_layer"), Some(&AttributeValue::Text("roads".to_string())));
}

#[test]
fn test_from_bytes_minimal() {
    let tile = MvtTile { layers: vec![basic_point_layer("test", "test_point")] };
    let reader = MvtReader::from_tile(&tile, TileCoord::new(14, 14552, 6451)).unwrap();
    assert_eq!(reader.len(), 1);
    let rec = reader.get(0).unwrap();
    assert_eq!(rec.attributes.get("name"), Some(&AttributeValue::Text("test_point".to_string())));
    assert_eq!(rec.record_number, 1);
    assert_eq!(rec.extent, 4096);
    assert_eq!(rec.geometry, PixelGeometry::Point((100, 200)));
}

#[test]
fn test_from_bytes_empty_tile() {
    let tile = MvtTile { layers: vec![] };
    let reader = MvtReader::from_tile(&tile, TileCoord::new(0, 0, 0)).unwrap();
    assert_eq!(reader.len(), 0);
    assert!(reader.is_empty());
}

#[test]
fn test_layer_names() {
    let tile = MvtTile { layers: vec![basic_point_layer("roads", "r1"), basic_point_layer("buildings", "b1")] };
    let reader = MvtReader::from_tile(&tile, TileCoord::new(14, 14552, 6451)).unwrap();
    let names = reader.layer_names();
    assert_eq!(names.len(), 2);
    assert!(names.contains(&"roads".to_string()));
    assert!(names.contains(&"buildings".to_string()));
}

#[test]
fn test_filter_by_layer() {
    let tile = MvtTile { layers: vec![basic_point_layer("roads", "r1"), basic_point_layer("buildings", "b1")] };
    let reader = MvtReader::from_tile(&tile, TileCoord::new(14, 14552, 6451)).unwrap();
    let roads = reader.filter_by_layer("roads");
    assert_eq!(roads.len(), 1);
    assert_eq!(roads[0].attributes.get("name"), Some(&AttributeValue::Text("r1".to_string())));
    assert!(reader.filter_by_layer("water").is_empty());
}

#[test]
fn records_limit_and_numbering() {
    let tile = MvtTile {
        layers: vec![basic_point_layer("a", "1"), basic_point_layer("b", "2"), basic_point_layer("c", "3")],
    };
    let reader = MvtReader::from_tile(&tile, TileCoord::new(1, 0, 0)).unwrap();
    assert_eq!(reader.records(Some(2)).len(), 2);
    assert_eq!(reader.records(None).len(), 3);
    assert_eq!(reader.records(Some(10)).len(), 3);
    assert_eq!(reader.iter_records()[2].record_number, 3);
    assert!(reader.get(3).is_none());
    assert_eq!(reader.tile(), &TileCoord::new(1, 0, 0));
}

#[test]
fn invalid_feature_fails_tile() {
    let mut layer = basic_point_layer("a", "1");
    layer.features.push(feature(1, vec![encode_command(2, 1), 0, 0], vec![]));
    let tile = MvtTile { layers: vec![layer] };
    assert!(matches!(MvtReader::from_tile(&tile, TileCoord::new(1, 0, 0)), Err(ShapefileError::InvalidMvt { .. })));
}

#[test]
fn starts_with_and_numeric_values() {
    let layer = point_layer(
        "l",
        vec!["name".to_string(), "n".to_string()],
        vec![text_value("Tokyo"), MvtValue { int_value: Some(5), ..value() }],
        vec![0, 0, 1, 1],
    );
    let tile = MvtTile { layers: vec![layer] };
    let reader = MvtReader::from_tile(&tile, TileCoord::new(1, 0, 0)).unwrap();
    assert_eq!(reader.filter_by_attribute_starts_with("name", "To").len(), 1);
    assert_eq!(reader.filter_by_attribute_starts_with("name", "Os").len(), 0);
    assert_eq!(reader.numeric_values("n").unwrap(), vec![Number::Integer(5)]);
    assert!(matches!(reader.numeric_values("zzz"), Err(ShapefileError::FieldNotFound(_))));
    assert!(matches!(reader.numeric_values("name"), Err(ShapefileError::DescribeOnNonNumericField { .. })));
}

#[test]
fn layer_filter_presets() {
    let f = LayerFilter::road_centerline();
    assert!(f.layer_names.is_none());
    assert_eq!(f.ft_codes, Some(vec![2701, 2702, 2703, 2704]));
    let g = LayerFilter::layer("roads".to_string());
    assert_eq!(g.layer_names, Some(vec!["roads".to_string()]));
    assert!(g.ft_codes.is_none());
    let tile = MvtTile { layers: vec![basic_point_layer("roads", "r")] };
    let reader = MvtReader::from_tile(&tile, TileCoord::new(1, 0, 0)).unwrap();
    let rec = reader.get(0).unwrap();
    assert!(g.accepts_layer(&rec.attributes));
    assert!(!LayerFilter::layer("x".to_string()).accepts_layer(&rec.attributes));
    assert!(LayerFilter::default().accepts_layer(&rec.attributes));
}

fn reader_of(layers: Vec<MvtLayer>) -> MvtReader {
    MvtReader::from_tile(&MvtTile { layers }, TileCoord::new(14, 14552, 6451)).unwrap()
}

fn int_value(v: i64) -> MvtValue {
    MvtValue { int_value: Some(v), ..value() }
}

#[test]
fn test_from_bytes_basic() {
    let reader = reader_of(vec![basic_point_layer("test", "point_a")]);
    assert_eq!(reader.len(), 1);
    let rec = reader.get(0).unwrap();
    assert_eq!(rec.geometry, PixelGeometry::Point((100, 200)));
    assert_eq!(rec.attributes.get("name"), Some(&AttributeValue::Text("point_a".to_string())));
    assert_eq!(rec.attributes.get("_layer"), Some(&AttributeValue::Text("test".to_string())));
}

#[test]
fn mvt_test_test_len_positive() {
    assert!(reader_of(vec![basic_point_layer("test", "a")]).len() > 0);
}

#[test]
fn mvt_test_test_records_limit() {
    let reader = reader_of(vec![basic_point_layer("a", "1"), basic_point_layer("b", "2"), basic_point_layer("c", "3")]);
    assert_eq!(reader.records(Some(1)).len(), 1);
    assert_eq!(reader.records(None).len(), 3);
}

#[test]
fn mvt_test_test_iter_records_count() {
    let reader = reader_of(vec![basic_point_layer("a", "1"), basic_point_layer("b", "2")]);
    assert_eq!(reader.iter_records().len(), reader.len());
    let numbers: Vec<u32> = reader.iter_records().iter().map(|r| r.record_number).collect();
    assert_eq!(numbers, vec![1, 2]);
}

#[test]
fn mvt_test_test_get_first_record() {
    assert!(reader_of(vec![basic_point_layer("test", "a")]).get(0).is_some());
}

#[test]
fn mvt_test_test_get_out_of_range() {
    assert!(reader_of(vec![basic_point_layer("test", "a")]).get(9999).is_none());
}

#[test]
fn mvt_test_test_describe_numeric() {
    let layer = MvtLayer {
        version: 2,
        name: "test".to_string(),
        features: vec![
            feature(1, vec![encode_command(1, 1), encode_zigzag(10), encode_zigzag(20)], vec![0, 0]),
            feature(1, vec![encode_command(1, 1), encode_zigzag(30), encode_zigzag(40)], vec![0, 1]),
        ],
        keys: vec!["pop".to_string()],
        values: vec![int_value(100), int_value(200)],
        extent: Some(4096),
    };
    let reader = reader_of(vec![layer]);
    let values = reader.numeric_values("pop").unwrap();
    assert_eq!(values, vec![Number::Integer(100), Number::Integer(200)]);
    assert!(matches!(reader.numeric_values("_layer"), Err(ShapefileError::DescribeOnNonNumericField { .. })));
    assert!(matches!(reader.numeric_values("nope"), Err(ShapefileError::FieldNotFound(_))));
}

#[test]
fn test_linestring_geometry() {
    let layer = MvtLayer {
        version: 2,
        name: "lines".to_string(),
        features: vec![feature(
            2,
            vec![
                encode_command(1, 1),
                encode_zigzag(0),
                encode_zigzag(0),
                encode_command(2, 2),
                encode_zigzag(100),
                encode_zigzag(0),
                encode_zigzag(0),
                encode_zigzag(100),
            ],
            vec![],
        )],
        keys: vec![],
        values: vec![],
        extent: Some(4096),
    };
    let reader = reader_of(vec![layer]);
    match &reader.get(0).unwrap().geometry {
        PixelGeometry::Polyline(parts) => {
            assert_eq!(parts.len(), 1);
            assert_eq!(parts[0].len(), 3);
            assert_eq!(parts[0][2], (100, 100));
        }
        other => panic!("expected Polyline, got {:?}", other),
    }
}

#[test]
fn mvt_test_test_polygon_geometry() {
    let layer = MvtLayer {
        version: 2,
        name: "polys".to_string(),
        features: vec![feature(
            3,
            vec![
                encode_command(1, 1),
                encode_zigzag(0),
                encode_zigzag(0),
                encode_command(2, 2),
                encode_zigzag(100),
                encode_zigzag(0),
                encode_zigzag(-100),
                encode_zigzag(100),
                encode_command(7, 1),
            ],
            vec![],
        )],
        keys: vec![],
        values: vec![],
        extent: Some(4096),
    };
    let reader = reader_of(vec![layer]);
    match &reader.get(0).unwrap().geometry {
        PixelGeometry::Polygon(rings) => {
            assert!(!rings.is_empty());
            let ring = &rings[0];
            assert_eq!(ring.first(), ring.last());
            assert_eq!(ring.len(), 4);
        }
        other => panic!("expected Polygon, got {:?}", other),
    }
}

#[test]
fn a_cut_short_line_names_its_geometry_type() {
    let truncated = feature(2, vec![encode_command(1, 1), encode_zigzag(5)], vec![]);
    match decode_geometry(&truncated) {
        Err(ShapefileError::InvalidMvt { reason }) => assert_eq!(reason, "truncated LINESTRING geometry"),
        other => panic!("unexpected result: {:?}", other),
    }
}
