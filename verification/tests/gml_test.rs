use rs_shapefile::gml_model::GmlEvent;
use rs_shapefile::gml_reader::{
    local_name, namespace_prefix, parse_attribute_value, parse_coordinates, parse_gml, parse_pos,
    parse_pos_list, read_gml_events,
};
use rs_shapefile::{AttributeValue, Geometry, GmlReader, Number, ShapefileError};

fn num(n: &Number) -> f64 {
    match n {
        Number::Decimal(s) => s.parse().unwrap(),
        Number::Bits(b) => f64::from_bits(*b),
        Number::Integer(i) => *i as f64,
        Number::Single(b) => f32::from_bits(*b) as f64,
    }
}

fn close(a: &Number, b: f64, tol: f64) -> bool {
    (num(a) - b).abs() < tol
}

fn dataset(body: &str) -> String {
    format!(
        r#"<?xml version="1.0" encoding="UTF-8"?>
<ksj:Dataset xmlns:ksj="http://nlftp.mlit.go.jp/ksj/schemas/ksj-app"
             xmlns:gml="http://www.opengis.net/gml">
{body}
</ksj:Dataset>"#
    )
}

fn wrap_gml(features: &str) -> String {
    format!(
        r#"<?xml version="1.0" encoding="UTF-8"?>
<ksj:Dataset
    xmlns:ksj="http://nlftp.mlit.go.jp/ksj/schemas/ksj-app"
    xmlns:gml="http://www.opengis.net/gml"
    xmlns:xsi="http://www.w3.org/2001/XMLSchema-instance">
{features}
</ksj:Dataset>"#
    )
}

fn make_road_feature(id: &str, coords: &str, rdctg: i32, rnk_width: i32, route_name: &str) -> String {
    format!(
        r#"
  <gml:featureMember>
    <ksj:Road gml:id="{id}">
      <ksj:location>
        <gml:LineString srsName="http://www.opengis.net/def/crs/EPSG/0/6668">
          <gml:posList>{coords}</gml:posList>
        </gml:LineString>
      </ksj:location>
      <ksj:rdCtg>{rdctg}</ksj:rdCtg>
      <ksj:rnkWidth>{rnk_width}</ksj:rnkWidth>
      <ksj:routeName>{route_name}</ksj:routeName>
    </ksj:Road>
  </gml:featureMember>"#
    )
}

fn sample_xml() -> String {
    let f1 = make_road_feature("r1", "35.6895 139.6917 35.6900 139.6920", 1, 5, "Route 1");
    let f2 = make_road_feature("r2", "35.7000 139.7000 35.7010 139.7010", 2, 3, "Route 246");
    let f3 = make_road_feature("r3", "35.6800 139.6800 35.6810 139.6810", 1, 7, "Meiji-dori");
    wrap_gml(&format!("{f1}{f2}{f3}"))
}

// --- parse_pos_list / parse_pos ---

#[test]
fn test_parse_pos_list_valid() {
    let pts = parse_pos_list("35.0 139.0 36.0 140.0").unwrap();
    assert_eq!(pts.len(), 2);
    assert!(close(&pts[0].x, 139.0, 1e-10));
    assert!(close(&pts[0].y, 35.0, 1e-10));
    assert!(close(&pts[1].x, 140.0, 1e-10));
    assert!(close(&pts[1].y, 36.0, 1e-10));
}

#[test]
fn test_parse_pos_list_odd_count() {
    let result = parse_pos_list("35.0 139.0 36.0");
    assert!(result.is_err());
    if let Err(ShapefileError::InvalidGml { reason }) = result {
        assert!(reason.contains("odd"));
    }
}

#[test]
fn test_parse_pos_list_invalid_float() {
    let result = parse_pos_list("35.0 abc");
    assert!(result.is_err());
    if let Err(ShapefileError::InvalidGml { reason }) = result {
        assert!(reason.contains("invalid float"));
    }
}

#[test]
fn test_parse_pos_valid() {
    let pt = parse_pos("35.6895 139.6917").unwrap();
    assert!(close(&pt.x, 139.6917, 1e-10));
    assert!(close(&pt.y, 35.6895, 1e-10));
}

#[test]
fn pos_reads_the_first_two_numbers() {
    let p = parse_pos("1 2 3").unwrap();
    assert_eq!(p.x, Number::Decimal("2".to_string()));
    assert_eq!(p.y, Number::Decimal("1".to_string()));
    assert!(matches!(parse_pos("1"), Err(ShapefileError::InvalidGml { .. })));
    assert!(matches!(parse_pos("1 x"), Err(ShapefileError::InvalidGml { .. })));
}

#[test]
fn pos_list_keeps_the_source_text_and_swaps_axes() {
    let pts = parse_pos_list("  1.5\t-2e3\n 7 8 ").unwrap();
    assert_eq!(pts.len(), 2);
    assert_eq!(pts[0].x, Number::Decimal("-2e3".to_string()));
    assert_eq!(pts[0].y, Number::Decimal("1.5".to_string()));
    assert_eq!(pts[1].x, Number::Decimal("8".to_string()));
    assert_eq!(pts[1].y, Number::Decimal("7".to_string()));
    assert!(parse_pos_list("").unwrap().is_empty());
}

#[test]
fn coordinates_are_comma_separated_tuples() {
    let pts = parse_coordinates("35.0,139.0 36.25,140.5;1,2").unwrap();
    assert_eq!(pts.len(), 3);
    assert!(close(&pts[0].x, 139.0, 1e-12));
    assert!(close(&pts[0].y, 35.0, 1e-12));
    assert!(close(&pts[1].x, 140.5, 1e-12));
    assert!(close(&pts[1].y, 36.25, 1e-12));
    assert!(close(&pts[2].x, 2.0, 1e-12));
    assert!(matches!(parse_coordinates("139.0"), Err(ShapefileError::InvalidGml { .. })));
    assert!(matches!(parse_coordinates("a,1"), Err(ShapefileError::InvalidGml { .. })));
}

// --- local names ---

#[test]
fn test_local_name_with_prefix() {
    assert_eq!(local_name(b"gml:Point"), b"Point");
}

#[test]
fn test_local_name_without_prefix() {
    assert_eq!(local_name(b"Road"), b"Road");
}

#[test]
fn namespace_prefix_is_the_part_before_the_colon() {
    assert_eq!(namespace_prefix(b"gml:Point"), Some(&b"gml"[..]));
    assert_eq!(namespace_prefix(b"Road"), None);
    assert_eq!(local_name(b"a:b:c"), b"b:c");
}

// --- geometry elements ---

#[test]
fn test_parse_point_element() {
    let xml = dataset(
        r#"  <gml:featureMember>
    <ksj:Station gml:id="st1">
      <ksj:location>
        <gml:Point srsName="http://www.opengis.net/def/crs/EPSG/0/6668">
          <gml:pos>35.6895 139.6917</gml:pos>
        </gml:Point>
      </ksj:location>
      <ksj:stationName>Tokyo</ksj:stationName>
    </ksj:Station>
  </gml:featureMember>"#,
    );
    let reader = GmlReader::from_str(&xml).unwrap();
    assert_eq!(reader.len(), 1);
    let rec = reader.get(0).unwrap();
    if let Geometry::Point(p) = &rec.geometry {
        assert!(close(&p.x, 139.6917, 1e-4));
        assert!(close(&p.y, 35.6895, 1e-4));
    } else {
        panic!("expected Point geometry");
    }
}

#[test]
fn gml_reader_test_parse_linestring() {
    let xml = dataset(
        r#"  <gml:featureMember>
    <ksj:Road gml:id="r1">
      <ksj:location>
        <gml:LineString srsName="http://www.opengis.net/def/crs/EPSG/0/6668">
          <gml:posList>35.0 139.0 35.1 139.1 35.2 139.2</gml:posList>
        </gml:LineString>
      </ksj:location>
    </ksj:Road>
  </gml:featureMember>"#,
    );
    let reader = GmlReader::from_str(&xml).unwrap();
    assert_eq!(reader.len(), 1);
    let rec = reader.get(0).unwrap();
    if let Geometry::Polyline(pl) = &rec.geometry {
        assert_eq!(pl.parts.len(), 1);
        assert_eq!(pl.parts[0].len(), 3);
    } else {
        panic!("expected Polyline geometry");
    }
}

const EXTERIOR: &str = r#"<gml:exterior>
            <gml:LinearRing>
              <gml:posList>35.0 139.0 35.1 139.0 35.1 139.1 35.0 139.1 35.0 139.0</gml:posList>
            </gml:LinearRing>
          </gml:exterior>"#;

#[test]
fn test_parse_polygon_exterior_only() {
    let xml = dataset(&format!(
        r#"  <gml:featureMember>
    <ksj:Area gml:id="a1">
      <ksj:location>
        <gml:Polygon srsName="http://www.opengis.net/def/crs/EPSG/0/6668">
          {EXTERIOR}
        </gml:Polygon>
      </ksj:location>
    </ksj:Area>
  </gml:featureMember>"#
    ));
    let reader = GmlReader::from_str(&xml).unwrap();
    assert_eq!(reader.len(), 1);
    let rec = reader.get(0).unwrap();
    if let Geometry::Polygon(pg) = &rec.geometry {
        assert_eq!(pg.rings.len(), 1);
        assert_eq!(pg.exterior().points.len(), 5);
        assert!(pg.holes().is_empty());
    } else {
        panic!("expected Polygon geometry");
    }
}

#[test]
fn gml_reader_test_parse_polygon_with_hole() {
    let xml = dataset(&format!(
        r#"  <gml:featureMember>
    <ksj:Area gml:id="a1">
      <ksj:location>
        <gml:Polygon srsName="http://www.opengis.net/def/crs/EPSG/0/6668">
          {EXTERIOR}
          <gml:interior>
            <gml:LinearRing>
              <gml:posList>35.02 139.02 35.08 139.02 35.08 139.08 35.02 139.08 35.02 139.02</gml:posList>
            </gml:LinearRing>
          </gml:interior>
        </gml:Polygon>
      </ksj:location>
    </ksj:Area>
  </gml:featureMember>"#
    ));
    let reader = GmlReader::from_str(&xml).unwrap();
    assert_eq!(reader.len(), 1);
    let rec = reader.get(0).unwrap();
    if let Geometry::Polygon(pg) = &rec.geometry {
        assert_eq!(pg.rings.len(), 2);
        assert_eq!(pg.holes().len(), 1);
    } else {
        panic!("expected Polygon geometry");
    }
}

#[test]
fn gml_reader_test_parse_multilinestring() {
    let xml = dataset(
        r#"  <gml:featureMember>
    <ksj:Road gml:id="r1">
      <ksj:location>
        <gml:MultiCurve srsName="http://www.opengis.net/def/crs/EPSG/0/6668">
          <gml:curveMember>
            <gml:LineString>
              <gml:posList>35.0 139.0 35.1 139.1</gml:posList>
            </gml:LineString>
          </gml:curveMember>
          <gml:curveMember>
            <gml:LineString>
              <gml:posList>36.0 140.0 36.1 140.1</gml:posList>
            </gml:LineString>
          </gml:curveMember>
        </gml:MultiCurve>
      </ksj:location>
    </ksj:Road>
  </gml:featureMember>"#,
    );
    let reader = GmlReader::from_str(&xml).unwrap();
    assert_eq!(reader.len(), 1);
    let rec = reader.get(0).unwrap();
    if let Geometry::Polyline(pl) = &rec.geometry {
        assert_eq!(pl.parts.len(), 2);
    } else {
        panic!("expected Polyline geometry");
    }
}

#[test]
fn gml_reader_test_parse_multipolygon_expansion() {
    let xml = dataset(
        r#"  <gml:featureMember>
    <ksj:Area gml:id="a1">
      <ksj:location>
        <gml:MultiSurface srsName="http://www.opengis.net/def/crs/EPSG/0/6668">
          <gml:surfaceMember>
            <gml:Polygon>
              <gml:exterior>
                <gml:LinearRing>
                  <gml:posList>35.0 139.0 35.1 139.0 35.1 139.1 35.0 139.1 35.0 139.0</gml:posList>
                </gml:LinearRing>
              </gml:exterior>
            </gml:Polygon>
          </gml:surfaceMember>
          <gml:surfaceMember>
            <gml:Polygon>
              <gml:exterior>
                <gml:LinearRing>
                  <gml:posList>36.0 140.0 36.1 140.0 36.1 140.1 36.0 140.1 36.0 140.0</gml:posList>
                </gml:LinearRing>
              </gml:exterior>
            </gml:Polygon>
          </gml:surfaceMember>
        </gml:MultiSurface>
      </ksj:location>
      <ksj:name>test</ksj:name>
    </ksj:Area>
  </gml:featureMember>"#,
    );
    let reader = GmlReader::from_str(&xml).unwrap();
    assert_eq!(reader.len(), 2);
    for rec in reader.iter_records() {
        assert!(matches!(rec.geometry, Geometry::Polygon(_)));
        assert_eq!(rec.get_attr("name"), Some(&AttributeValue::Text("test".to_string())));
    }
    assert_eq!(reader.get(0).unwrap().record_number, 1);
    assert_eq!(reader.get(1).unwrap().record_number, 2);
}

// --- attribute values ---

#[test]
fn test_parse_attr_numeric() {
    let val = parse_attribute_value("42");
    assert_eq!(val, AttributeValue::Numeric(Number::Decimal("42".to_string())));
    assert_eq!(num(val.as_number().unwrap()), 42.0);
}

#[test]
fn test_parse_attr_string() {
    let val = parse_attribute_value("Tokyo");
    assert_eq!(val, AttributeValue::Text("Tokyo".to_string()));
}

#[test]
fn test_parse_attr_empty() {
    let val = parse_attribute_value("");
    assert_eq!(val, AttributeValue::Null);
}

#[test]
fn attribute_text_is_trimmed() {
    assert_eq!(parse_attribute_value("  "), AttributeValue::Null);
    assert_eq!(parse_attribute_value(" 3.5 "), AttributeValue::Numeric(Number::Decimal("3.5".to_string())));
    assert_eq!(parse_attribute_value(" a b "), AttributeValue::Text("a b".to_string()));
}

// --- document level ---

#[test]
fn test_bbox_from_bounded_by() {
    let xml = dataset(
        r#"  <gml:boundedBy>
    <gml:Envelope srsName="http://www.opengis.net/def/crs/EPSG/0/6668">
      <gml:lowerCorner>34.0 138.0</gml:lowerCorner>
      <gml:upperCorner>36.0 140.0</gml:upperCorner>
    </gml:Envelope>
  </gml:boundedBy>"#,
    );
    let reader = GmlReader::from_str(&xml).unwrap();
    let bb = reader.envelope().unwrap();
    assert!(close(&bb.x_min, 138.0, 1e-10));
    assert!(close(&bb.y_min, 34.0, 1e-10));
    assert!(close(&bb.x_max, 140.0, 1e-10));
    assert!(close(&bb.y_max, 36.0, 1e-10));
}

#[test]
fn no_envelope_without_bounded_by() {
    let reader = GmlReader::from_str(&sample_xml()).unwrap();
    assert!(reader.envelope().is_none());
}

#[test]
fn test_srs_name_extracted() {
    let xml = dataset(
        r#"  <gml:featureMember>
    <ksj:Station gml:id="s1">
      <ksj:location>
        <gml:Point srsName="http://www.opengis.net/def/crs/EPSG/0/6668">
          <gml:pos>35.0 139.0</gml:pos>
        </gml:Point>
      </ksj:location>
    </ksj:Station>
  </gml:featureMember>"#,
    );
    let reader = GmlReader::from_str(&xml).unwrap();
    assert_eq!(reader.srs_name(), Some("http://www.opengis.net/def/crs/EPSG/0/6668"));
}

#[test]
fn gml_reader_test_empty_feature_collection() {
    let reader = GmlReader::from_str(&dataset("")).unwrap();
    assert_eq!(reader.len(), 0);
    assert!(reader.is_empty());
    assert!(reader.srs_name().is_none());
}

#[test]
fn test_unsupported_geometry_collection() {
    let xml = dataset(
        r#"  <gml:featureMember>
    <ksj:Thing gml:id="t1">
      <ksj:location>
        <gml:GeometryCollection/>
      </ksj:location>
    </ksj:Thing>
  </gml:featureMember>"#,
    );
    let result = GmlReader::from_str(&xml);
    assert!(result.is_err());
    if let Err(ShapefileError::InvalidGml { reason }) = result {
        assert!(reason.contains("GeometryCollection"));
    }
}

#[test]
fn malformed_xml_is_an_xml_error() {
    let result = parse_gml(b"<a><b></a>");
    assert!(matches!(result, Err(ShapefileError::GmlXmlError(_))));
}

#[test]
fn feature_without_geometry_has_null_geometry() {
    let xml = dataset(
        r#"  <gml:featureMember>
    <ksj:Thing gml:id="t1">
      <ksj:name>lonely</ksj:name>
    </ksj:Thing>
  </gml:featureMember>"#,
    );
    let reader = GmlReader::from_str(&xml).unwrap();
    assert_eq!(reader.len(), 1);
    let rec = reader.get(0).unwrap();
    assert!(rec.geometry.is_null());
    assert_eq!(rec.get_attr("name"), Some(&AttributeValue::Text("lonely".to_string())));
}

// --- reader over a sample document ---

#[test]
fn gml_test_test_from_str() {
    let reader = GmlReader::from_str(&sample_xml()).unwrap();
    assert!(reader.len() > 0);
}

#[test]
fn gml_test_test_len_positive() {
    let reader = GmlReader::from_str(&sample_xml()).unwrap();
    assert_eq!(reader.len(), 3);
}

#[test]
fn test_srs_name() {
    let reader = GmlReader::from_str(&sample_xml()).unwrap();
    let srs = reader.srs_name().unwrap();
    assert!(srs.contains("6668"));
}

#[test]
fn gml_test_test_records_limit() {
    let reader = GmlReader::from_str(&sample_xml()).unwrap();
    assert_eq!(reader.records(Some(1)).len(), 1);
    assert_eq!(reader.records(Some(10)).len(), 3);
    assert_eq!(reader.records(None).len(), 3);
}

#[test]
fn gml_test_test_iter_records_count() {
    let reader = GmlReader::from_str(&sample_xml()).unwrap();
    assert_eq!(reader.iter_records().len(), reader.len());
}

#[test]
fn gml_test_test_get_first_record() {
    let reader = GmlReader::from_str(&sample_xml()).unwrap();
    assert!(reader.get(0).is_some());
}

#[test]
fn gml_test_test_get_out_of_range() {
    let reader = GmlReader::from_str(&sample_xml()).unwrap();
    assert!(reader.get(9999).is_none());
}

#[test]
fn test_filter_starts_with_route() {
    let reader = GmlReader::from_str(&sample_xml()).unwrap();
    let filtered = reader.filter_by_attribute_starts_with("routeName", "Route");
    assert_eq!(filtered.len(), 2);
    assert_eq!(filtered[0].record_number, 1);
    assert_eq!(filtered[1].record_number, 2);
}

#[test]
fn test_describe_rnk_width() {
    let reader = GmlReader::from_str(&sample_xml()).unwrap();
    let values = reader.numeric_values("rnkWidth").unwrap();
    let nums: Vec<f64> = values.iter().map(num).collect();
    assert_eq!(nums, vec![5.0, 3.0, 7.0]);
}

#[test]
fn test_describe_string_field_error() {
    let reader = GmlReader::from_str(&sample_xml()).unwrap();
    assert!(matches!(
        reader.numeric_values("routeName"),
        Err(ShapefileError::DescribeOnNonNumericField { .. })
    ));
    assert!(matches!(reader.numeric_values("nope"), Err(ShapefileError::FieldNotFound(_))));
}

#[test]
fn test_coord_order_lon_lat() {
    let reader = GmlReader::from_str(&sample_xml()).unwrap();
    let rec = reader.get(0).unwrap();
    if let Geometry::Polyline(pl) = &rec.geometry {
        let p = &pl.parts[0][0];
        assert!(num(&p.x) > 139.0 && num(&p.x) < 140.0);
        assert!(num(&p.y) > 35.0 && num(&p.y) < 36.0);
    } else {
        panic!("expected Polyline geometry");
    }
}

#[test]
fn test_point_geometry() {
    let xml = wrap_gml(
        r#"
  <gml:featureMember>
    <ksj:Station gml:id="s1">
      <ksj:location>
        <gml:Point srsName="http://www.opengis.net/def/crs/EPSG/0/6668">
          <gml:pos>35.6895 139.6917</gml:pos>
        </gml:Point>
      </ksj:location>
      <ksj:name>Tokyo</ksj:name>
    </ksj:Station>
  </gml:featureMember>"#,
    );
    let reader = GmlReader::from_str(&xml).unwrap();
    assert_eq!(reader.len(), 1);
    let rec = reader.get(0).unwrap();
    assert!(matches!(rec.geometry, Geometry::Point(_)));
    if let Geometry::Point(p) = &rec.geometry {
        assert!(close(&p.x, 139.6917, 1e-4));
        assert!(close(&p.y, 35.6895, 1e-4));
    }
}

#[test]
fn gml_test_test_polygon_geometry() {
    let xml = wrap_gml(
        r#"
  <gml:featureMember>
    <ksj:Area gml:id="a1">
      <ksj:location>
        <gml:Polygon srsName="http://www.opengis.net/def/crs/EPSG/0/6668">
          <gml:exterior>
            <gml:LinearRing>
              <gml:posList>35.0 139.0 35.1 139.0 35.1 139.1 35.0 139.1 35.0 139.0</gml:posList>
            </gml:LinearRing>
          </gml:exterior>
        </gml:Polygon>
      </ksj:location>
      <ksj:areaName>Shinjuku</ksj:areaName>
    </ksj:Area>
  </gml:featureMember>"#,
    );
    let reader = GmlReader::from_str(&xml).unwrap();
    assert_eq!(reader.len(), 1);
    let rec = reader.get(0).unwrap();
    assert!(matches!(rec.geometry, Geometry::Polygon(_)));
    if let Geometry::Polygon(pg) = &rec.geometry {
        assert_eq!(pg.rings.len(), 1);
        assert_eq!(pg.exterior().points.len(), 5);
    }
}

// --- documents given as events ---

fn start(name: &str) -> GmlEvent {
    GmlEvent::Start(name.as_bytes().to_vec(), Vec::new())
}

fn start_with(name: &str, key: &str, value: &str) -> GmlEvent {
    GmlEvent::Start(
        name.as_bytes().to_vec(),
        vec![(key.as_bytes().to_vec(), value.as_bytes().to_vec())],
    )
}

fn end(name: &str) -> GmlEvent {
    GmlEvent::End(name.as_bytes().to_vec())
}

fn text(t: &str) -> GmlEvent {
    GmlEvent::Text(t.to_string())
}

fn point_feature_events() -> Vec<GmlEvent> {
    vec![
        start("gml:FeatureCollection"),
        start("gml:featureMember"),
        start("ksj:Station"),
        start("ksj:location"),
        start_with("gml:Point", "srsName", "EPSG:6668"),
        start("gml:pos"),
        text("35.5 139.25"),
        end("gml:pos"),
        end("gml:Point"),
        end("ksj:location"),
        start("ksj:name"),
        text(" Tokyo "),
        end("ksj:name"),
        end("ksj:Station"),
        end("gml:featureMember"),
        end("gml:FeatureCollection"),
    ]
}

#[test]
fn events_make_one_point_record() {
    let reader = GmlReader::from_events(&point_feature_events()).unwrap();
    assert_eq!(reader.len(), 1);
    assert_eq!(reader.srs_name(), Some("EPSG:6668"));
    let rec = reader.get(0).unwrap();
    assert_eq!(rec.record_number, 1);
    match &rec.geometry {
        Geometry::Point(p) => {
            assert!(close(&p.x, 139.25, 1e-9));
            assert!(close(&p.y, 35.5, 1e-9));
        }
        _ => panic!("expected a point"),
    }
    assert_eq!(rec.get_attr("name"), Some(&AttributeValue::Text("Tokyo".to_string())));
}

#[test]
fn events_and_text_give_the_same_records() {
    let xml = r#"<gml:FeatureCollection><gml:featureMember><ksj:Station><ksj:location><gml:Point srsName="EPSG:6668"><gml:pos>35.5 139.25</gml:pos></gml:Point></ksj:location><ksj:name> Tokyo </ksj:name></ksj:Station></gml:featureMember></gml:FeatureCollection>"#;
    let from_text = parse_gml(xml.as_bytes()).unwrap();
    let from_events = read_gml_events(&point_feature_events()).unwrap();
    assert_eq!(from_text.0.len(), 1);
    assert_eq!(from_events.0.len(), 1);
    assert_eq!(from_text.0[0].geometry, from_events.0[0].geometry);
    assert_eq!(from_text.0[0].get_attr("name"), from_events.0[0].get_attr("name"));
    assert_eq!(from_text.2, from_events.2);
}

#[test]
fn an_xml_error_event_stops_the_reading() {
    let mut events = point_feature_events();
    events.insert(3, GmlEvent::XmlError("broken".to_string()));
    let result = GmlReader::from_events(&events);
    assert!(matches!(result, Err(ShapefileError::GmlXmlError(m)) if m == "broken"));
}

#[test]
fn a_geometry_collection_event_is_invalid() {
    let events = vec![
        start("gml:FeatureCollection"),
        start("gml:featureMember"),
        start("ksj:Thing"),
        start("ksj:location"),
        start("gml:GeometryCollection"),
        end("gml:GeometryCollection"),
        end("ksj:location"),
        end("ksj:Thing"),
        end("gml:featureMember"),
        end("gml:FeatureCollection"),
    ];
    let result = read_gml_events(&events);
    assert!(matches!(result, Err(ShapefileError::InvalidGml { .. })));
}

#[test]
fn no_events_no_records() {
    let reader = GmlReader::from_events(&Vec::new()).unwrap();
    assert!(reader.is_empty());
    assert!(reader.envelope().is_none());
    assert!(reader.srs_name().is_none());
}

#[test]
fn prefix_colon_and_local_name_rebuild_the_tag() {
    for tag in [&b"gml:Point"[..], &b"a:b:c"[..], &b":x"[..]] {
        let prefix = namespace_prefix(tag).unwrap();
        let mut rebuilt = prefix.to_vec();
        rebuilt.push(b':');
        rebuilt.extend_from_slice(local_name(tag));
        assert_eq!(rebuilt, tag.to_vec());
        assert!(!prefix.contains(&b':'));
    }
    assert_eq!(local_name(b"Road"), b"Road");
    assert!(namespace_prefix(b"Road").is_none());
}

#[test]
fn srs_name_comes_from_the_first_geometry_element() {
    let xml = br#"<D><gml:boundedBy><gml:Envelope srsName="A"><gml:lowerCorner>34 138</gml:lowerCorner><gml:upperCorner>36 140</gml:upperCorner></gml:Envelope></gml:boundedBy><gml:featureMember><F><gml:Point srsName="B"><gml:pos>35 139</gml:pos></gml:Point></F></gml:featureMember></D>"#;
    let (records, bbox, srs) = parse_gml(xml).unwrap();
    assert_eq!(records.len(), 1);
    assert!(bbox.is_some());
    assert_eq!(srs, Some("B".to_string()));
}
