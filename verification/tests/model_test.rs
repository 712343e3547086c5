use rs_shapefile::{
    AttributeValue, Attributes, Crs, FieldDef, FieldType, Geometry, MultiPoint, Number, Point,
    PointM, PointZ, Polygon, PolygonM, PolygonZ, Polyline, PolylineM, PolylineZ, Ring, ShapeRecord,
    ShapeType,
};

fn pt(x: f64, y: f64) -> Point {
    Point { x: Number::Bits(x.to_bits()), y: Number::Bits(y.to_bits()) }
}

#[test]
fn test_field_def_is_numeric_numeric() {
    let fd = FieldDef { name: "val".to_string(), field_type: FieldType::Numeric, length: 10, decimal_count: 2 };
    assert!(fd.is_numeric());
}

#[test]
fn test_field_def_is_numeric_float() {
    let fd = FieldDef { name: "val".to_string(), field_type: FieldType::Float, length: 10, decimal_count: 2 };
    assert!(fd.is_numeric());
}

#[test]
fn test_field_def_is_numeric_character() {
    let fd = FieldDef { name: "name".to_string(), field_type: FieldType::Character, length: 50, decimal_count: 0 };
    assert!(!fd.is_numeric());
}

#[test]
fn test_field_def_is_numeric_date() {
    let fd = FieldDef { name: "dt".to_string(), field_type: FieldType::Date, length: 8, decimal_count: 0 };
    assert!(!fd.is_numeric());
}

#[test]
fn test_attribute_value_starts_with_text() {
    let v = AttributeValue::Text("ABC".to_string());
    assert!(v.starts_with("A"));
    assert!(!v.starts_with("B"));
}

#[test]
fn starts_with_only_for_text() {
    assert!(!AttributeValue::Date("20240101".to_string()).starts_with("2024"));
    assert!(!AttributeValue::Null.starts_with(""));
    assert!(AttributeValue::Text("".to_string()).starts_with(""));
    assert!(!AttributeValue::Text("A".to_string()).starts_with("AB"));
}

#[test]
fn attribute_value_accessors() {
    let t = AttributeValue::Text("x".to_string());
    assert_eq!(t.as_str(), Some("x"));
    assert_eq!(t.as_bool(), None);
    let b = AttributeValue::Logical(true);
    assert_eq!(b.as_bool(), Some(true));
    assert!(b.as_str().is_none());
    let n = AttributeValue::Numeric(Number::Integer(3));
    assert!(n.is_numeric());
    assert_eq!(n.as_number(), Some(&Number::Integer(3)));
    assert!(!t.is_numeric());
}

#[test]
fn test_crs_is_geographic_geogcs() {
    let crs = Crs { wkt: r#"GEOGCS["GCS_JGD_2011",DATUM["D_JGD_2011"]]"#.to_string() };
    assert!(crs.is_geographic());
}

#[test]
fn test_crs_is_geographic_projcs() {
    let crs = Crs { wkt: r#"PROJCS["JGD2011",GEOGCS["GCS_JGD_2011"]]"#.to_string() };
    assert!(!crs.is_geographic());
}

#[test]
fn test_crs_name_extraction() {
    let crs = Crs { wkt: r#"GEOGCS["GCS_JGD_2011",DATUM["D_JGD_2011"]]"#.to_string() };
    assert_eq!(crs.name(), Some("GCS_JGD_2011"));
}

#[test]
fn crs_name_absent_without_quotes() {
    let crs = Crs { wkt: "LOCAL_CS".to_string() };
    assert_eq!(crs.name(), None);
    let crs = Crs { wkt: "X[\"open".to_string() };
    assert_eq!(crs.name(), None);
}

#[test]
fn attributes_later_insert_wins() {
    let mut a = Attributes::new();
    a.insert("k".to_string(), AttributeValue::Text("one".to_string()));
    a.insert("other".to_string(), AttributeValue::Null);
    a.insert("k".to_string(), AttributeValue::Logical(false));
    assert_eq!(a.get("k"), Some(&AttributeValue::Logical(false)));
    assert_eq!(a.get("other"), Some(&AttributeValue::Null));
    assert!(a.get("missing").is_none());
    assert!(a.contains_key("k"));
    assert!(!a.contains_key("K"));
    let c = a.clone();
    assert_eq!(c.get("k"), Some(&AttributeValue::Logical(false)));
}

#[test]
fn polyline_counts() {
    let pl = Polyline { parts: vec![vec![pt(0.0, 0.0), pt(1.0, 1.0)], vec![pt(2.0, 2.0)]] };
    assert_eq!(pl.num_parts(), 2);
    assert_eq!(pl.num_points(), 3);
}

#[test]
fn polygon_exterior_and_holes() {
    let ext = Ring { points: vec![pt(0.0, 0.0), pt(0.0, 10.0), pt(10.0, 10.0), pt(0.0, 0.0)] };
    let hole = Ring { points: vec![pt(1.0, 1.0), pt(2.0, 1.0), pt(1.0, 2.0), pt(1.0, 1.0)] };
    let pg = Polygon { rings: vec![ext, hole] };
    assert_eq!(pg.exterior().points.len(), 4);
    assert_eq!(pg.holes().len(), 1);
    let single = Polygon { rings: vec![Ring { points: vec![pt(0.0, 0.0)] }] };
    assert!(single.holes().is_empty());
}

#[test]
fn geometry_shape_types() {
    assert_eq!(Geometry::Null.shape_type(), ShapeType::Null);
    assert_eq!(Geometry::Point(pt(1.0, 2.0)).shape_type(), ShapeType::Point);
    assert_eq!(Geometry::Polyline(Polyline { parts: vec![] }).shape_type(), ShapeType::Polyline);
    assert_eq!(Geometry::Polygon(Polygon { rings: vec![] }).shape_type(), ShapeType::Polygon);
    assert_eq!(Geometry::MultiPoint(MultiPoint { points: vec![] }).shape_type(), ShapeType::MultiPoint);
    assert!(Geometry::Null.is_null());
    assert!(Geometry::Point(pt(1.0, 2.0)).as_point().is_some());
    assert!(Geometry::Point(pt(1.0, 2.0)).as_polyline().is_none());
    assert!(Geometry::Polygon(Polygon { rings: vec![] }).as_polygon().is_some());
}

#[test]
fn shape_type_codes_round_trip() {
    for code in [0, 1, 3, 5, 8, 11, 13, 15, 21, 23, 25, 31] {
        let t = ShapeType::try_from(code).unwrap();
        assert_eq!(t.code(), code);
    }
}

#[test]
fn field_type_names() {
    assert_eq!(FieldType::Character.name(), "Character");
    assert_eq!(FieldType::Logical.name(), "Logical");
}

fn numeric(x: f64) -> AttributeValue {
    AttributeValue::Numeric(Number::Bits(x.to_bits()))
}

fn as_f64(v: &AttributeValue) -> Option<f64> {
    v.as_number().map(|n| match n {
        Number::Bits(b) => f64::from_bits(*b),
        Number::Decimal(s) => s.parse().unwrap(),
        Number::Integer(i) => *i as f64,
        Number::Single(b) => f32::from_bits(*b) as f64,
    })
}

#[test]
fn test_attribute_value_starts_with_non_text() {
    assert!(!numeric(42.0).starts_with("4"));
}

#[test]
fn test_as_str_on_text() {
    assert_eq!(AttributeValue::Text("hello".to_string()).as_str(), Some("hello"));
}

#[test]
fn test_as_str_on_numeric() {
    assert_eq!(numeric(1.0).as_str(), None);
}

#[test]
fn test_as_str_on_null() {
    assert_eq!(AttributeValue::Null.as_str(), None);
}

#[test]
fn test_as_str_on_logical() {
    assert_eq!(AttributeValue::Logical(true).as_str(), None);
}

#[test]
fn test_as_str_on_date() {
    assert_eq!(AttributeValue::Date("20260101".to_string()).as_str(), None);
}

#[test]
fn test_as_f64_on_numeric() {
    assert_eq!(as_f64(&numeric(42.5)), Some(42.5));
}

#[test]
fn test_as_f64_on_text() {
    assert_eq!(as_f64(&AttributeValue::Text("x".to_string())), None);
}

#[test]
fn test_as_f64_on_null() {
    assert_eq!(as_f64(&AttributeValue::Null), None);
}

#[test]
fn test_as_f64_on_logical() {
    assert_eq!(as_f64(&AttributeValue::Logical(false)), None);
}

#[test]
fn test_as_f64_on_date() {
    assert_eq!(as_f64(&AttributeValue::Date("20260101".to_string())), None);
}

#[test]
fn test_as_bool_on_logical_true() {
    assert_eq!(AttributeValue::Logical(true).as_bool(), Some(true));
}

#[test]
fn test_as_bool_on_logical_false() {
    assert_eq!(AttributeValue::Logical(false).as_bool(), Some(false));
}

#[test]
fn test_as_bool_on_null() {
    assert_eq!(AttributeValue::Null.as_bool(), None);
}

#[test]
fn test_as_bool_on_text() {
    assert_eq!(AttributeValue::Text("true".to_string()).as_bool(), None);
}

#[test]
fn test_as_bool_on_numeric() {
    assert_eq!(numeric(1.0).as_bool(), None);
}

#[test]
fn test_is_numeric_on_numeric() {
    assert!(numeric(1.0).is_numeric());
}

#[test]
fn test_is_numeric_on_text() {
    assert!(!AttributeValue::Text("x".to_string()).is_numeric());
}

#[test]
fn test_is_numeric_on_null() {
    assert!(!AttributeValue::Null.is_numeric());
}

#[test]
fn test_is_numeric_on_logical() {
    assert!(!AttributeValue::Logical(true).is_numeric());
}

#[test]
fn test_is_numeric_on_date() {
    assert!(!AttributeValue::Date("20260101".to_string()).is_numeric());
}

#[test]
fn test_date_starts_with() {
    assert!(!AttributeValue::Date("20260401".to_string()).starts_with("2026"));
}

fn record(attributes: Attributes) -> ShapeRecord {
    ShapeRecord { record_number: 1, geometry: Geometry::Null, attributes }
}

#[test]
fn test_get_attr_found() {
    let mut attrs = Attributes::new();
    attrs.insert("name".to_string(), AttributeValue::Text("test".to_string()));
    assert_eq!(record(attrs).get_attr("name"), Some(&AttributeValue::Text("test".to_string())));
}

#[test]
fn test_get_attr_not_found() {
    assert_eq!(record(Attributes::new()).get_attr("missing"), None);
}

#[test]
fn test_get_attr_numeric() {
    let mut attrs = Attributes::new();
    attrs.insert("population".to_string(), numeric(1000.0));
    assert_eq!(record(attrs).get_attr("population"), Some(&numeric(1000.0)));
}

#[test]
fn test_get_attr_null_value() {
    let mut attrs = Attributes::new();
    attrs.insert("empty".to_string(), AttributeValue::Null);
    assert_eq!(record(attrs).get_attr("empty"), Some(&AttributeValue::Null));
}

#[test]
fn attributes_emptiness() {
    let mut attrs = Attributes::new();
    assert!(attrs.is_empty());
    attrs.insert("a".to_string(), AttributeValue::Null);
    assert!(!attrs.is_empty());
}

#[test]
fn test_polyline_num_parts_single() {
    let line = Polyline { parts: vec![vec![pt(0.0, 0.0), pt(1.0, 1.0)]] };
    assert_eq!(line.num_parts(), 1);
}

#[test]
fn test_polyline_num_parts_multi() {
    let line = Polyline { parts: vec![vec![pt(0.0, 0.0), pt(1.0, 1.0)], vec![pt(2.0, 2.0), pt(3.0, 3.0)]] };
    assert_eq!(line.num_parts(), 2);
}

#[test]
fn test_polyline_num_points() {
    let line = Polyline {
        parts: vec![vec![pt(0.0, 0.0), pt(1.0, 1.0)], vec![pt(2.0, 2.0), pt(3.0, 3.0), pt(4.0, 4.0)]],
    };
    assert_eq!(line.num_points(), 5);
}

fn square() -> Ring {
    Ring { points: vec![pt(0.0, 0.0), pt(4.0, 0.0), pt(4.0, 4.0), pt(0.0, 4.0), pt(0.0, 0.0)] }
}

#[test]
fn test_polygon_exterior() {
    let poly = Polygon { rings: vec![square()] };
    assert_eq!(poly.exterior(), &square());
}

#[test]
fn test_polygon_holes() {
    let hole = Ring { points: vec![pt(1.0, 1.0), pt(2.0, 1.0), pt(2.0, 2.0), pt(1.0, 2.0), pt(1.0, 1.0)] };
    let poly = Polygon { rings: vec![square(), hole.clone()] };
    assert_eq!(poly.holes().len(), 1);
    assert_eq!(&poly.holes()[0], &hole);
}

#[test]
fn test_geometry_shape_type_polyline() {
    let geom = Geometry::Polyline(Polyline { parts: vec![vec![pt(0.0, 0.0), pt(1.0, 1.0)]] });
    assert_eq!(geom.shape_type(), ShapeType::Polyline);
}

#[test]
fn test_geometry_as_polyline_some() {
    let line = Polyline { parts: vec![vec![pt(0.0, 0.0), pt(1.0, 1.0)]] };
    let geom = Geometry::Polyline(Polyline { parts: vec![vec![pt(0.0, 0.0), pt(1.0, 1.0)]] });
    assert_eq!(geom.as_polyline(), Some(&line));
}

#[test]
fn test_geometry_is_null() {
    assert!(Geometry::Null.is_null());
    assert!(!Geometry::Point(pt(0.0, 0.0)).is_null());
}

#[test]
fn test_multipoint_shape_type() {
    assert_eq!(MultiPoint { points: vec![pt(0.0, 0.0)] }.shape_type(), ShapeType::MultiPoint);
}

fn n(x: f64) -> Number {
    Number::Bits(x.to_bits())
}

#[test]
fn test_pointz_shape_type() {
    let p = PointZ { x: n(0.0), y: n(0.0), z: n(0.0), m: Some(n(1.0)) };
    assert_eq!(p.shape_type(), ShapeType::PointZ);
}

#[test]
fn test_polylinez_shape_type() {
    assert_eq!(PolylineZ { parts: vec![] }.shape_type(), ShapeType::PolylineZ);
}

#[test]
fn test_polygonz_shape_type() {
    assert_eq!(PolygonZ { rings: vec![] }.shape_type(), ShapeType::PolygonZ);
}

#[test]
fn test_pointm_shape_type() {
    assert_eq!(PointM { x: n(0.0), y: n(0.0), m: n(0.0) }.shape_type(), ShapeType::PointM);
}

#[test]
fn test_polylinem_shape_type() {
    assert_eq!(PolylineM { parts: vec![] }.shape_type(), ShapeType::PolylineM);
}

#[test]
fn test_polygonm_shape_type() {
    assert_eq!(PolygonM { rings: vec![] }.shape_type(), ShapeType::PolygonM);
}

#[test]
fn test_geometry_as_polygon_some() {
    let ring = || Ring { points: vec![pt(0.0, 0.0), pt(1.0, 0.0), pt(1.0, 1.0), pt(0.0, 0.0)] };
    let geom = Geometry::Polygon(Polygon { rings: vec![ring()] });
    assert_eq!(geom.as_polygon(), Some(&Polygon { rings: vec![ring()] }));
}

#[test]
fn test_geometry_as_polygon_none() {
    assert_eq!(Geometry::Null.as_polygon(), None);
}

#[test]
fn test_geometry_as_point_none_for_polyline() {
    let geom = Geometry::Polyline(Polyline { parts: vec![vec![pt(0.0, 0.0)]] });
    assert_eq!(geom.as_point(), None);
}

#[test]
fn test_geometry_as_polyline_none_for_point() {
    assert_eq!(Geometry::Point(pt(0.0, 0.0)).as_polyline(), None);
}

#[test]
fn test_geometry_shape_type_all_variants() {
    assert_eq!(Geometry::Null.shape_type(), ShapeType::Null);
    assert_eq!(Geometry::Point(pt(0.0, 0.0)).shape_type(), ShapeType::Point);
    assert_eq!(Geometry::Polyline(Polyline { parts: vec![] }).shape_type(), ShapeType::Polyline);
    assert_eq!(Geometry::Polygon(Polygon { rings: vec![] }).shape_type(), ShapeType::Polygon);
    assert_eq!(Geometry::MultiPoint(MultiPoint { points: vec![] }).shape_type(), ShapeType::MultiPoint);
    assert_eq!(
        Geometry::PointZ(PointZ { x: n(0.0), y: n(0.0), z: n(0.0), m: None }).shape_type(),
        ShapeType::PointZ
    );
    assert_eq!(Geometry::PolylineZ(PolylineZ { parts: vec![] }).shape_type(), ShapeType::PolylineZ);
    assert_eq!(Geometry::PolygonZ(PolygonZ { rings: vec![] }).shape_type(), ShapeType::PolygonZ);
    assert_eq!(Geometry::PointM(PointM { x: n(0.0), y: n(0.0), m: n(0.0) }).shape_type(), ShapeType::PointM);
    assert_eq!(Geometry::PolylineM(PolylineM { parts: vec![] }).shape_type(), ShapeType::PolylineM);
    assert_eq!(Geometry::PolygonM(PolygonM { rings: vec![] }).shape_type(), ShapeType::PolygonM);
}

#[test]
fn whitespace_is_what_char_is_whitespace_says() {
    for c in (0u32..0x3100).filter_map(char::from_u32).chain(['\u{feff}', '\u{10ffff}']) {
        assert_eq!(rs_shapefile::text::is_whitespace(c), c.is_whitespace(), "{:?}", c);
    }
}
