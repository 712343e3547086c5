//! GeoJSON (RFC 7946): feature collections, features and bare geometries,
//! read from a parsed JSON document into shape records.
use crate::error::ShapefileError;
use crate::models::attribute::{entries_map, AttributeValue, Attributes};
use crate::models::bbox::BoundingBox;
use crate::models::geometry::{
    parts_view, rings_view, Geometry, GeometryView, MultiPoint, Point, Polygon, Polyline, Ring,
};
use crate::models::record::{
    collect_numeric_values, limited, record_derefs, record_numbers, records_starting_with,
    some_record_has, take_records, ShapeRecord,
};
use crate::mvt_reader::{field_starts_with, keep};
use crate::number::Number;
use crate::text::str_eq;
use vstd::prelude::*;
use serde_json::Value;

verus! {

/// A parsed JSON value. Arrays and objects keep the compact JSON text they
/// were read from, which is how nested values become text attributes; values
/// built by this library carry none.
#[derive(Debug)]
pub enum JsonValue {
    Null,
    Bool(bool),
    Number(Number),
    String(String),
    Array(Vec<JsonValue>, Option<String>),
    Object(Vec<(String, JsonValue)>, Option<String>),
}

// ---------------------------------------------------------------------------
// JSON text (serde_json)
// ---------------------------------------------------------------------------

#[verifier::external_type_specification]
#[verifier::external_body]
pub struct ExJsonValue(serde_json::Value);

/// The outer level of a parsed JSON value: scalars as values, numbers as
/// their text; the members of an array or object as their compact JSON
/// text, and the compact text of the whole array or object.
pub enum JsonNode {
    Null,
    Bool(bool),
    Number(String),
    String(String),
    Array(Vec<String>, String),
    Object(Vec<(String, String)>, String),
}

/// The value of an outer level.
pub enum JsonNodeV {
    Null,
    Bool(bool),
    Number(Seq<char>),
    String(Seq<char>),
    Array(Seq<Seq<char>>, Seq<char>),
    Object(Seq<(Seq<char>, Seq<char>)>, Seq<char>),
}

impl View for JsonNode {
    type V = JsonNodeV;

    open spec fn view(&self) -> JsonNodeV {
        match self {
            JsonNode::Null => JsonNodeV::Null,
            JsonNode::Bool(b) => JsonNodeV::Bool(*b),
            JsonNode::Number(n) => JsonNodeV::Number(n@),
            JsonNode::String(t) => JsonNodeV::String(t@),
            JsonNode::Array(items, c) => JsonNodeV::Array(items@.map_values(|x: String| x@), c@),
            JsonNode::Object(es, c) => JsonNodeV::Object(
                es@.map_values(|e: (String, String)| (e.0@, e.1@)),
                c@,
            ),
        }
    }
}

/// What `serde_json::from_str::<serde_json::Value>` makes of `text`, seen
/// one level deep: the outer level, or the parser's error message.
pub uninterp spec fn spec_json_node(text: Seq<char>) -> Result<JsonNodeV, Seq<char>>;

/// `serde_json::from_str::<serde_json::Value>`, its value taken one level
/// deep: scalars as they are (a number as its `Display` text), members of
/// arrays and objects (objects in `serde_json::Map`'s key order) as their
/// compact text (`Value`'s `Display`), or the error's message. The parse
/// depends on the text alone, and is named.
#[verifier::external_body]
fn json_node(text: &str) -> (r: Result<JsonNode, String>)
    ensures
        match r {
            Ok(n) => spec_json_node(text@) == Ok::<JsonNodeV, Seq<char>>(n@),
            Err(m) => spec_json_node(text@) == Err::<JsonNodeV, Seq<char>>(m@),
        },
{
    match serde_json::from_str::<Value>(text) {
        Ok(v) => Ok(match &v {
            Value::Null => JsonNode::Null,
            Value::Bool(b) => JsonNode::Bool(*b),
            Value::Number(n) => JsonNode::Number(n.to_string()),
            Value::String(t) => JsonNode::String(t.clone()),
            Value::Array(a) => JsonNode::Array(a.iter().map(|x| x.to_string()).collect(), v.to_string()),
            Value::Object(m) => JsonNode::Object(m.iter().map(|(k, x)| (k.clone(), x.to_string())).collect(), v.to_string()),
        }),
        Err(e) => Err(e.to_string()),
    }
}

/// How deep a document may nest: serde_json refuses deeper ones.
pub const JSON_DEPTH: usize = 128;

/// The text of a JSON document parses, level by level, down to `depth`
/// nested arrays and objects.
pub open spec fn json_text_ok(text: Seq<char>, depth: nat) -> bool
    decreases depth,
{
    match spec_json_node(text) {
        Ok(JsonNodeV::Array(items, _)) => depth > 0 && forall|k: int|
            0 <= k < items.len() ==> json_text_ok(#[trigger] items[k], (depth - 1) as nat),
        Ok(JsonNodeV::Object(es, _)) => depth > 0 && forall|k: int|
            0 <= k < es.len() ==> json_text_ok(#[trigger] es[k].1, (depth - 1) as nat),
        Ok(_) => true,
        Err(_) => false,
    }
}

/// A document that parses down to `depth` has members that parse down to
/// one level less.
proof fn lemma_json_ok_member(text: Seq<char>, depth: nat, k: int)
    requires
        json_text_ok(text, depth),
    ensures
        spec_json_node(text) matches Ok(JsonNodeV::Array(items, _)) ==> (0 <= k < items.len() ==> depth > 0
            && json_text_ok(items[k], (depth - 1) as nat)),
        spec_json_node(text) matches Ok(JsonNodeV::Object(es, _)) ==> (0 <= k < es.len() ==> depth > 0
            && json_text_ok(es[k].1, (depth - 1) as nat)),
{
}

/// `v` is the value of the JSON text `text`, read level by level: numbers
/// kept as their decimal text, arrays and objects with their compact text.
pub open spec fn json_text_is(v: JsonValue, text: Seq<char>, depth: nat) -> bool
    decreases depth,
{
    match spec_json_node(text) {
        Ok(JsonNodeV::Null) => v is Null,
        Ok(JsonNodeV::Bool(b)) => v == JsonValue::Bool(b),
        Ok(JsonNodeV::Number(n)) => v matches JsonValue::Number(Number::Decimal(d)) && d@ == n,
        Ok(JsonNodeV::String(t)) => v matches JsonValue::String(u) && u@ == t,
        Ok(JsonNodeV::Array(items, c)) => depth > 0 && (v matches JsonValue::Array(xs, Some(u)) && u@
            == c && xs@.len() == items.len() && forall|k: int|
            0 <= k < items.len() ==> json_text_is(#[trigger] xs@[k], items[k], (depth - 1) as nat)),
        Ok(JsonNodeV::Object(es, c)) => depth > 0 && (v matches JsonValue::Object(xs, Some(u)) && u@
            == c && xs@.len() == es.len() && forall|k: int|
            0 <= k < es.len() ==> (#[trigger] xs@[k]).0@ == es[k].0 && json_text_is(
                xs@[k].1,
                es[k].1,
                (depth - 1) as nat,
            )),
        Err(_) => false,
    }
}

/// Reads JSON text into a value, level by level, down to `depth` nested
/// arrays and objects: fails with the parser's message where a level does
/// not parse, and when the nesting goes deeper.
fn json_of_text(text: &str, depth: usize) -> (r: Result<JsonValue, String>)
    ensures
        r is Ok <==> json_text_ok(text@, depth as nat),
        r matches Ok(v) ==> json_text_is(v, text@, depth as nat),
        spec_json_node(text@) matches Err(m) ==> (r matches Err(e) && e@ == m),
    decreases depth,
{
    let node = match json_node(text) {
        Ok(n) => n,
        Err(m) => {
            return Err(m);
        },
    };
    match node {
        JsonNode::Null => Ok(JsonValue::Null),
        JsonNode::Bool(b) => Ok(JsonValue::Bool(b)),
        JsonNode::Number(n) => Ok(JsonValue::Number(Number::Decimal(n))),
        JsonNode::String(t) => Ok(JsonValue::String(t)),
        JsonNode::Array(items, c) => {
            if depth == 0 {
                return Err("recursion limit exceeded".to_string());
            }
            let ghost iv = items@.map_values(|x: String| x@);
            let mut xs: Vec<JsonValue> = Vec::new();
            let mut k: usize = 0;
            while k < items.len()
                invariant
                    depth > 0,
                    iv == items@.map_values(|x: String| x@),
                    spec_json_node(text@) == Ok::<JsonNodeV, Seq<char>>(JsonNodeV::Array(iv, c@)),
                    k <= items@.len(),
                    xs@.len() == k,
                    forall|j: int| 0 <= j < k ==> json_text_ok(#[trigger] iv[j], (depth - 1) as nat),
                    forall|j: int| 0 <= j < k ==> json_text_is(#[trigger] xs@[j], iv[j], (depth - 1) as nat),
                decreases items@.len() - k,
            {
                match json_of_text(items[k].as_str(), depth - 1) {
                    Ok(x) => xs.push(x),
                    Err(e) => {
                        assert(!json_text_ok(iv[k as int], (depth - 1) as nat));
                        proof {
                            if json_text_ok(text@, depth as nat) {
                                lemma_json_ok_member(text@, depth as nat, k as int);
                            }
                        }
                        return Err(e);
                    },
                }
                k = k + 1;
            }
            Ok(JsonValue::Array(xs, Some(c)))
        },
        JsonNode::Object(es, c) => {
            if depth == 0 {
                return Err("recursion limit exceeded".to_string());
            }
            let ghost ev = es@.map_values(|e: (String, String)| (e.0@, e.1@));
            let mut xs: Vec<(String, JsonValue)> = Vec::new();
            let mut k: usize = 0;
            while k < es.len()
                invariant
                    depth > 0,
                    ev == es@.map_values(|e: (String, String)| (e.0@, e.1@)),
                    spec_json_node(text@) == Ok::<JsonNodeV, Seq<char>>(JsonNodeV::Object(ev, c@)),
                    k <= es@.len(),
                    xs@.len() == k,
                    forall|j: int| 0 <= j < k ==> json_text_ok(#[trigger] ev[j].1, (depth - 1) as nat),
                    forall|j: int|
                        0 <= j < k ==> (#[trigger] xs@[j]).0@ == ev[j].0 && json_text_is(
                            xs@[j].1,
                            ev[j].1,
                            (depth - 1) as nat,
                        ),
                decreases es@.len() - k,
            {
                match json_of_text(es[k].1.as_str(), depth - 1) {
                    Ok(x) => xs.push((es[k].0.clone(), x)),
                    Err(e) => {
                        assert(!json_text_ok(ev[k as int].1, (depth - 1) as nat));
                        proof {
                            if json_text_ok(text@, depth as nat) {
                                lemma_json_ok_member(text@, depth as nat, k as int);
                            }
                        }
                        return Err(e);
                    },
                }
                k = k + 1;
            }
            Ok(JsonValue::Object(xs, Some(c)))
        },
    }
}

/// Reads a JSON document: fails with the parser's message, or where the
/// document nests deeper than serde_json reads.
pub fn parse_json(text: &str) -> (r: Result<JsonValue, String>)
    ensures
        r is Ok <==> json_text_ok(text@, JSON_DEPTH as nat),
        r matches Ok(v) ==> json_text_is(v, text@, JSON_DEPTH as nat),
        spec_json_node(text@) matches Err(m) ==> (r matches Err(e) && e@ == m),
{
    json_of_text(text, JSON_DEPTH)
}

/// The value under `key` in an object's entries (the first such entry).
pub open spec fn entries_get(entries: Seq<(String, JsonValue)>, key: Seq<char>) -> Option<JsonValue>
    decreases entries.len(),
{
    if entries.len() == 0 {
        None
    } else if entries[0].0@ == key {
        Some(entries[0].1)
    } else {
        entries_get(entries.drop_first(), key)
    }
}

/// The value of `key` when `v` is an object that has it.
pub open spec fn field(v: JsonValue, key: Seq<char>) -> Option<JsonValue> {
    match v {
        JsonValue::Object(entries, _) => entries_get(entries@, key),
        _ => None,
    }
}

/// Looks up `key` in an object.
pub fn json_get<'a>(v: &'a JsonValue, key: &str) -> (r: Option<&'a JsonValue>)
    ensures
        r is None <==> field(*v, key@) is None,
        r matches Some(x) ==> field(*v, key@) == Some(*x),
{
    match v {
        JsonValue::Object(entries, _) => {
            let n = entries.len();
            let mut i: usize = 0;
            assert(entries@.skip(0) =~= entries@);
            while i < n
                invariant
                    n == entries@.len(),
                    i <= n,
                    entries_get(entries@, key@) == entries_get(entries@.skip(i as int), key@),
                    field(*v, key@) == entries_get(entries@, key@),
                decreases n - i,
            {
                proof {
                    assert(entries@.skip(i as int).drop_first() =~= entries@.skip(i + 1));
                    assert(entries@.skip(i as int)[0] == entries@[i as int]);
                }
                if str_eq(entries[i].0.as_str(), key) {
                    return Some(&entries[i].1);
                }
                i = i + 1;
            }
            None
        },
        _ => None,
    }
}

/// The point of a coordinate array: its first two elements, both numbers.
pub open spec fn point_of(coords: Seq<JsonValue>) -> Option<Point> {
    if coords.len() < 2 {
        None
    } else {
        match (coords[0], coords[1]) {
            (JsonValue::Number(x), JsonValue::Number(y)) => Some(Point { x, y }),
            _ => None,
        }
    }
}

/// The points of an array of coordinate arrays.
pub open spec fn points_of(items: Seq<JsonValue>) -> Option<Seq<Point>>
    decreases items.len(),
{
    if items.len() == 0 {
        Some(Seq::empty())
    } else {
        match (points_of(items.drop_last()), items.last()) {
            (Some(ps), JsonValue::Array(a, _)) => match point_of(a@) {
                Some(p) => Some(ps.push(p)),
                None => None,
            },
            _ => None,
        }
    }
}

/// The lines of an array of arrays of coordinate arrays.
pub open spec fn lines_of(items: Seq<JsonValue>) -> Option<Seq<Seq<Point>>>
    decreases items.len(),
{
    if items.len() == 0 {
        Some(Seq::empty())
    } else {
        match (lines_of(items.drop_last()), items.last()) {
            (Some(ls), JsonValue::Array(a, _)) => match points_of(a@) {
                Some(p) => Some(ls.push(p)),
                None => None,
            },
            _ => None,
        }
    }
}

/// The polygons of a MultiPolygon's coordinate array.
pub open spec fn polygons_of(items: Seq<JsonValue>) -> Option<Seq<Seq<Seq<Point>>>>
    decreases items.len(),
{
    if items.len() == 0 {
        Some(Seq::empty())
    } else {
        match (polygons_of(items.drop_last()), items.last()) {
            (Some(ps), JsonValue::Array(a, _)) => match lines_of(a@) {
                Some(p) => Some(ps.push(p)),
                None => None,
            },
            _ => None,
        }
    }
}

/// The coordinate array of a geometry object, if it has one.
pub open spec fn coordinates_of(geom: JsonValue) -> Option<Seq<JsonValue>> {
    match field(geom, "coordinates"@) {
        Some(JsonValue::Array(c, _)) => Some(c@),
        _ => None,
    }
}

/// The geometries a GeoJSON geometry object stands for (a MultiPolygon
/// stands for one polygon per member); `None` when it is malformed or of a
/// type this library does not read.
pub open spec fn geometries_of(geom: JsonValue) -> Option<Seq<GeometryView>> {
    if geom is Null {
        Some(seq![GeometryView::Null])
    } else {
        match field(geom, "type"@) {
            Some(JsonValue::String(t)) => match coordinates_of(geom) {
                Some(c) => if t@ == "Point"@ {
                    match point_of(c) {
                        Some(p) => Some(seq![GeometryView::Point(p)]),
                        None => None,
                    }
                } else if t@ == "MultiPoint"@ {
                    match points_of(c) {
                        Some(ps) => Some(seq![GeometryView::MultiPoint(ps)]),
                        None => None,
                    }
                } else if t@ == "LineString"@ {
                    match points_of(c) {
                        Some(ps) => Some(seq![GeometryView::Polyline(seq![ps])]),
                        None => None,
                    }
                } else if t@ == "MultiLineString"@ {
                    match lines_of(c) {
                        Some(ls) => Some(seq![GeometryView::Polyline(ls)]),
                        None => None,
                    }
                } else if t@ == "Polygon"@ {
                    match lines_of(c) {
                        Some(ls) => Some(seq![GeometryView::Polygon(ls)]),
                        None => None,
                    }
                } else if t@ == "MultiPolygon"@ {
                    match polygons_of(c) {
                        Some(ps) => Some(ps.map_values(|p: Seq<Seq<Point>>| GeometryView::Polygon(p))),
                        None => None,
                    }
                } else {
                    None
                },
                None => None,
            },
            _ => None,
        }
    }
}

fn invalid_geojson(msg: &str) -> (r: ShapefileError)
    ensures
        r matches ShapefileError::InvalidGeoJson { reason } && reason@ == msg@,
{
    ShapefileError::InvalidGeoJson { reason: msg.to_string() }
}

/// The geometry types a `type` member can name.
pub open spec fn is_geometry_type(t: Seq<char>) -> bool {
    t == "Point"@ || t == "MultiPoint"@ || t == "LineString"@ || t == "MultiLineString"@ || t
        == "Polygon"@ || t == "MultiPolygon"@
}

/// Why a geometry of an unknown type is refused.
pub open spec fn unknown_geometry_reason(t: Seq<char>) -> Seq<char> {
    if t == "GeometryCollection"@ {
        "GeometryCollection is not supported"@
    } else {
        "unsupported geometry type: "@ + t
    }
}

/// Reads a point from a coordinate array.
pub fn parse_point(coords: &Vec<JsonValue>) -> (r: Result<Point, ShapefileError>)
    ensures
        match point_of(coords@) {
            Some(p) => r == Ok::<Point, ShapefileError>(p),
            None => r matches Err(e) && e is InvalidGeoJson,
        },
{
    if coords.len() < 2 {
        return Err(invalid_geojson("Point requires at least 2 coordinates"));
    }
    let x = match &coords[0] {
        JsonValue::Number(n) => n.clone(),
        _ => {
            return Err(invalid_geojson("coordinate is not a number"));
        },
    };
    let y = match &coords[1] {
        JsonValue::Number(n) => n.clone(),
        _ => {
            return Err(invalid_geojson("coordinate is not a number"));
        },
    };
    Ok(Point { x, y })
}

/// Reads the points of an array of coordinate arrays; `what` names the
/// geometry in the error message.
pub fn parse_linestring(coords: &Vec<JsonValue>, what: &str) -> (r: Result<Vec<Point>, ShapefileError>)
    ensures
        match points_of(coords@) {
            Some(ps) => r matches Ok(v) && v@ == ps,
            None => r matches Err(e) && e is InvalidGeoJson,
        },
{
    let n = coords.len();
    let mut out: Vec<Point> = Vec::new();
    let mut i: usize = 0;
    while i < n
        invariant
            n == coords@.len(),
            i <= n,
            points_of(coords@.take(i as int)) == Some(out@),
        decreases n - i,
    {
        proof {
            assert(coords@.take(i + 1).drop_last() =~= coords@.take(i as int));
        }
        let arr = match &coords[i] {
            JsonValue::Array(a, _) => a,
            _ => {
                proof {
                    lemma_points_of_prefix_none(coords@, i + 1);
                }
                let mut reason = what.to_string();
                reason.append(" coordinate is not an array");
                return Err(ShapefileError::InvalidGeoJson { reason });
            },
        };
        match parse_point(arr) {
            Ok(p) => {
                out.push(p);
            },
            Err(e) => {
                proof {
                    lemma_points_of_prefix_none(coords@, i + 1);
                }
                return Err(e);
            },
        }
        i = i + 1;
    }
    assert(coords@.take(n as int) =~= coords@);
    Ok(out)
}

proof fn lemma_points_of_prefix_none(items: Seq<JsonValue>, k: int)
    requires
        0 <= k <= items.len(),
        points_of(items.take(k)) is None,
    ensures
        points_of(items) is None,
    decreases items.len() - k,
{
    if k < items.len() {
        assert(items.take(k + 1).drop_last() =~= items.take(k));
        lemma_points_of_prefix_none(items, k + 1);
    } else {
        assert(items.take(k) =~= items);
    }
}

proof fn lemma_lines_of_prefix_none(items: Seq<JsonValue>, k: int)
    requires
        0 <= k <= items.len(),
        lines_of(items.take(k)) is None,
    ensures
        lines_of(items) is None,
    decreases items.len() - k,
{
    if k < items.len() {
        assert(items.take(k + 1).drop_last() =~= items.take(k));
        lemma_lines_of_prefix_none(items, k + 1);
    } else {
        assert(items.take(k) =~= items);
    }
}

proof fn lemma_polygons_of_prefix_none(items: Seq<JsonValue>, k: int)
    requires
        0 <= k <= items.len(),
        polygons_of(items.take(k)) is None,
    ensures
        polygons_of(items) is None,
    decreases items.len() - k,
{
    if k < items.len() {
        assert(items.take(k + 1).drop_last() =~= items.take(k));
        lemma_polygons_of_prefix_none(items, k + 1);
    } else {
        assert(items.take(k) =~= items);
    }
}

/// Reads the lines of an array of point arrays; `container` names the
/// element in the error message.
pub fn parse_lines(coords: &Vec<JsonValue>, container: &str) -> (r: Result<Vec<Vec<Point>>, ShapefileError>)
    ensures
        match lines_of(coords@) {
            Some(ls) => r matches Ok(v) && parts_view(v@) == ls,
            None => r matches Err(e) && e is InvalidGeoJson,
        },
{
    let n = coords.len();
    let mut out: Vec<Vec<Point>> = Vec::new();
    let mut i: usize = 0;
    while i < n
        invariant
            n == coords@.len(),
            i <= n,
            lines_of(coords@.take(i as int)) == Some(parts_view(out@)),
        decreases n - i,
    {
        proof {
            assert(coords@.take(i + 1).drop_last() =~= coords@.take(i as int));
        }
        let arr = match &coords[i] {
            JsonValue::Array(a, _) => a,
            _ => {
                proof {
                    lemma_lines_of_prefix_none(coords@, i + 1);
                }
                let mut reason = container.to_string();
                reason.append(" is not an array");
                return Err(ShapefileError::InvalidGeoJson { reason });
            },
        };
        match parse_linestring(arr, "LineString") {
            Ok(p) => {
                let ghost before = parts_view(out@);
                out.push(p);
                assert(parts_view(out@) =~= before.push(p@));
            },
            Err(e) => {
                proof {
                    lemma_lines_of_prefix_none(coords@, i + 1);
                }
                return Err(e);
            },
        }
        i = i + 1;
    }
    assert(coords@.take(n as int) =~= coords@);
    Ok(out)
}

/// Rings from lines of points.
fn rings_from(lines: &Vec<Vec<Point>>) -> (r: Vec<Ring>)
    ensures
        rings_view(r@) == parts_view(lines@),
{
    let n = lines.len();
    let mut out: Vec<Ring> = Vec::new();
    let mut i: usize = 0;
    while i < n
        invariant
            n == lines@.len(),
            i <= n,
            rings_view(out@) == parts_view(lines@).take(i as int),
        decreases n - i,
    {
        let ghost before = rings_view(out@);
        out.push(Ring { points: crate::models::geometry::clone_points(&lines[i]) });
        assert(rings_view(out@) =~= before.push(parts_view(lines@)[i as int]));
        i = i + 1;
        assert(rings_view(out@) =~= parts_view(lines@).take(i as int));
    }
    assert(parts_view(lines@).take(n as int) =~= parts_view(lines@));
    out
}

/// The views of a list of geometries.
pub open spec fn geometry_views(v: Seq<Geometry>) -> Seq<GeometryView> {
    v.map_values(|g: Geometry| g@)
}

fn one_geometry(g: Geometry) -> (r: Vec<Geometry>)
    ensures
        geometry_views(r@) == seq![g@],
{
    let mut v: Vec<Geometry> = Vec::new();
    v.push(g);
    assert(geometry_views(v@) =~= seq![g@]);
    v
}

fn coordinates_array<'a>(coords: Option<&'a JsonValue>, missing: &str) -> (r: Result<&'a Vec<JsonValue>, ShapefileError>)
    ensures
        r matches Ok(a) ==> coords matches Some(c) && *c == JsonValue::Array(*a, c->Array_1),
        r is Err ==> !(coords matches Some(c) && c is Array),
        r matches Err(e) ==> e is InvalidGeoJson,
{
    match coords {
        Some(JsonValue::Array(a, _)) => Ok(a),
        _ => Err(invalid_geojson(missing)),
    }
}

/// Converts a GeoJSON geometry object into geometries: one, except that a
/// MultiPolygon gives one polygon per member and `null` gives a null
/// geometry; `GeometryCollection` and unknown types are errors.
pub fn convert_geometry(geom: &JsonValue) -> (r: Result<Vec<Geometry>, ShapefileError>)
    ensures
        match geometries_of(*geom) {
            Some(gs) => r matches Ok(v) && geometry_views(v@) == gs,
            None => r matches Err(e) && e is InvalidGeoJson,
        },
        field(*geom, "type"@) matches Some(JsonValue::String(t)) ==> (!is_geometry_type(t@) ==> (
        r matches Err(ShapefileError::InvalidGeoJson { reason }) && reason@ == unknown_geometry_reason(
            t@,
        ))),
{
    if let JsonValue::Null = geom {
        return Ok(one_geometry(Geometry::Null));
    }
    let t = match json_get(geom, "type") {
        Some(JsonValue::String(t)) => t,
        _ => {
            return Err(invalid_geojson("geometry missing 'type' field"));
        },
    };
    let coords_val = json_get(geom, "coordinates");
    if str_eq(t.as_str(), "Point") {
        let coords = coordinates_array(coords_val, "Point missing 'coordinates'")?;
        let p = parse_point(coords)?;
        Ok(one_geometry(Geometry::Point(p)))
    } else if str_eq(t.as_str(), "MultiPoint") {
        let coords = coordinates_array(coords_val, "MultiPoint missing 'coordinates'")?;
        let points = parse_linestring(coords, "MultiPoint")?;
        Ok(one_geometry(Geometry::MultiPoint(MultiPoint { points })))
    } else if str_eq(t.as_str(), "LineString") {
        let coords = coordinates_array(coords_val, "LineString missing 'coordinates'")?;
        let points = parse_linestring(coords, "LineString")?;
        let ghost pv = points@;
        let mut parts: Vec<Vec<Point>> = Vec::new();
        parts.push(points);
        assert(parts_view(parts@) =~= seq![pv]);
        Ok(one_geometry(Geometry::Polyline(Polyline { parts })))
    } else if str_eq(t.as_str(), "MultiLineString") {
        let coords = coordinates_array(coords_val, "MultiLineString missing 'coordinates'")?;
        let parts = parse_lines(coords, "MultiLineString part")?;
        Ok(one_geometry(Geometry::Polyline(Polyline { parts })))
    } else if str_eq(t.as_str(), "Polygon") {
        let coords = coordinates_array(coords_val, "Polygon missing 'coordinates'")?;
        let lines = parse_lines(coords, "Polygon ring")?;
        let rings = rings_from(&lines);
        Ok(one_geometry(Geometry::Polygon(Polygon { rings })))
    } else if str_eq(t.as_str(), "MultiPolygon") {
        let coords = coordinates_array(coords_val, "MultiPolygon missing 'coordinates'")?;
        let n = coords.len();
        let mut out: Vec<Geometry> = Vec::new();
        let mut i: usize = 0;
        let ghost f = |p: Seq<Seq<Point>>| GeometryView::Polygon(p);
        assert(geometries_of(*geom) == (match polygons_of(coords@) {
            Some(ps) => Some(ps.map_values(f)),
            None => None,
        }));
        while i < n
            invariant
                n == coords@.len(),
                i <= n,
                field(*geom, "type"@) == Some(JsonValue::String(*t)),
                t@ == "MultiPolygon"@,
                f == (|p: Seq<Seq<Point>>| GeometryView::Polygon(p)),
                geometries_of(*geom) == (match polygons_of(coords@) {
                    Some(ps) => Some(ps.map_values(f)),
                    None => None,
                }),
                polygons_of(coords@.take(i as int)) matches Some(ps) && geometry_views(out@)
                    == ps.map_values(f),
            decreases n - i,
        {
            proof {
                assert(coords@.take(i + 1).drop_last() =~= coords@.take(i as int));
            }
            let arr = match &coords[i] {
                JsonValue::Array(a, _) => a,
                _ => {
                    proof {
                        lemma_polygons_of_prefix_none(coords@, i + 1);
                    }
                    return Err(invalid_geojson("MultiPolygon element is not an array"));
                },
            };
            match parse_lines(arr, "Polygon ring") {
                Ok(lines) => {
                    let ghost ps = polygons_of(coords@.take(i as int))->Some_0;
                    let ghost before = geometry_views(out@);
                    let rings = rings_from(&lines);
                    out.push(Geometry::Polygon(Polygon { rings }));
                    assert(geometry_views(out@) =~= before.push(f(parts_view(lines@))));
                    assert(ps.push(parts_view(lines@)).map_values(f) =~= ps.map_values(f).push(
                        f(parts_view(lines@)),
                    ));
                },
                Err(e) => {
                    proof {
                        lemma_polygons_of_prefix_none(coords@, i + 1);
                    }
                    return Err(e);
                },
            }
            i = i + 1;
        }
        assert(coords@.take(n as int) =~= coords@);
        Ok(out)
    } else if str_eq(t.as_str(), "GeometryCollection") {
        Err(invalid_geojson("GeometryCollection is not supported"))
    } else {
        let mut reason = "unsupported geometry type: ".to_string();
        reason.append(t.as_str());
        assert(reason@ == unknown_geometry_reason(t@));
        Err(ShapefileError::InvalidGeoJson { reason })
    }
}

/// The attribute a property value gives: strings, numbers, booleans and null
/// as themselves; arrays and objects as their compact JSON text.
pub open spec fn attribute_matches(a: AttributeValue, v: JsonValue) -> bool {
    match v {
        JsonValue::String(s) => a == AttributeValue::Text(s),
        JsonValue::Number(n) => a == AttributeValue::Numeric(n),
        JsonValue::Bool(b) => a == AttributeValue::Logical(b),
        JsonValue::Null => a is Null,
        JsonValue::Array(_, t) => a matches AttributeValue::Text(x) && x@ == source_text(t),
        JsonValue::Object(_, t) => a matches AttributeValue::Text(x) && x@ == source_text(t),
    }
}

/// The source text of an array or object, empty when it has none.
pub open spec fn source_text(t: Option<String>) -> Seq<char> {
    match t {
        Some(s) => s@,
        None => Seq::empty(),
    }
}

/// The value of the last entry named `key`.
pub open spec fn last_value(entries: Seq<(String, JsonValue)>, key: Seq<char>) -> Option<JsonValue>
    decreases entries.len(),
{
    if entries.len() == 0 {
        None
    } else if entries.last().0@ == key {
        Some(entries.last().1)
    } else {
        last_value(entries.drop_last(), key)
    }
}

/// The attributes that a `properties` value gives: one per member of an
/// object (the last one of a repeated name), none for anything else.
pub open spec fn properties_match(attrs: Map<Seq<char>, AttributeValue>, props: JsonValue) -> bool {
    match props {
        JsonValue::Object(entries, _) => forall|key: Seq<char>|
            {
                &&& #[trigger] attrs.contains_key(key) <==> last_value(entries@, key) is Some
                &&& attrs.contains_key(key) ==> attribute_matches(attrs[key], last_value(entries@, key)->Some_0)
            },
        _ => attrs == Map::<Seq<char>, AttributeValue>::empty(),
    }
}

/// Converts a property value to an attribute value.
fn property_attribute(v: &JsonValue) -> (r: AttributeValue)
    ensures
        attribute_matches(r, *v),
{
    match v {
        JsonValue::String(s) => AttributeValue::Text(s.clone()),
        JsonValue::Number(n) => AttributeValue::Numeric(n.clone()),
        JsonValue::Bool(b) => AttributeValue::Logical(*b),
        JsonValue::Null => AttributeValue::Null,
        JsonValue::Array(_, t) | JsonValue::Object(_, t) => AttributeValue::Text(
            match t {
                Some(text) => text.clone(),
                None => String::new(),
            },
        ),
    }
}

/// Converts a feature's `properties` into attributes.
pub fn convert_properties(props: &JsonValue) -> (r: Attributes)
    ensures
        properties_match(r@, *props),
{
    let mut map = Attributes::new();
    if let JsonValue::Object(entries, _) = props {
        let n = entries.len();
        let mut i: usize = 0;
        while i < n
            invariant
                n == entries@.len(),
                i <= n,
                forall|key: Seq<char>|
                    {
                        &&& #[trigger] map@.contains_key(key) <==> last_value(entries@.take(i as int), key) is Some
                        &&& map@.contains_key(key) ==> attribute_matches(
                            map@[key],
                            last_value(entries@.take(i as int), key)->Some_0,
                        )
                    },
            decreases n - i,
        {
            let a = property_attribute(&entries[i].1);
            let k = entries[i].0.clone();
            proof {
                assert(entries@.take(i + 1).drop_last() =~= entries@.take(i as int));
                assert(entries@.take(i + 1).last() == entries@[i as int]);
            }
            map.insert(k, a);
            i = i + 1;
        }
        assert(entries@.take(n as int) =~= entries@);
    }
    map
}

/// The value of `key` in `v`, `null` when absent.
pub open spec fn field_or_null(v: JsonValue, key: Seq<char>) -> JsonValue {
    match field(v, key) {
        Some(x) => x,
        None => JsonValue::Null,
    }
}

/// The geometries of a feature, each with the feature's `properties`.
pub open spec fn feature_items(f: JsonValue) -> Option<Seq<(GeometryView, JsonValue)>> {
    match geometries_of(field_or_null(f, "geometry"@)) {
        Some(gs) => Some(gs.map_values(|g: GeometryView| (g, field_or_null(f, "properties"@)))),
        None => None,
    }
}

/// The items of every feature of a collection, in order.
pub open spec fn collection_items(features: Seq<JsonValue>) -> Option<Seq<(GeometryView, JsonValue)>>
    decreases features.len(),
{
    if features.len() == 0 {
        Some(Seq::empty())
    } else {
        match (collection_items(features.drop_last()), feature_items(features.last())) {
            (Some(a), Some(b)) => Some(a + b),
            _ => None,
        }
    }
}

/// The geometries a GeoJSON document yields, each with the properties its
/// records get: a FeatureCollection's features in order, a Feature, or a
/// bare geometry (with no properties).
pub open spec fn document_items(root: JsonValue) -> Option<Seq<(GeometryView, JsonValue)>> {
    match field(root, "type"@) {
        Some(JsonValue::String(t)) => if t@ == "FeatureCollection"@ {
            match field(root, "features"@) {
                Some(JsonValue::Array(fs, _)) => collection_items(fs@),
                _ => None,
            }
        } else if t@ == "Feature"@ {
            feature_items(root)
        } else if t@ == "Point"@ || t@ == "MultiPoint"@ || t@ == "LineString"@ || t@
            == "MultiLineString"@ || t@ == "Polygon"@ || t@ == "MultiPolygon"@ {
            match geometries_of(root) {
                Some(gs) => Some(gs.map_values(|g: GeometryView| (g, JsonValue::Null))),
                None => None,
            }
        } else {
            None
        },
        _ => None,
    }
}

/// Records numbered from `start`, matching `items` one by one.
pub open spec fn records_match(recs: Seq<ShapeRecord>, items: Seq<(GeometryView, JsonValue)>, start: int) -> bool {
    &&& recs.len() == items.len()
    &&& forall|k: int|
        0 <= k < recs.len() ==> {
            &&& (#[trigger] recs[k]).record_number == start + k
            &&& recs[k].geometry@ == items[k].0
            &&& properties_match(recs[k].attributes@, items[k].1)
        }
}

/// Converts a feature into records numbered from `start`: one per geometry,
/// each with the feature's properties. Fails when the geometry is invalid,
/// or when a record number would exceed `u32::MAX`.
pub fn convert_feature(feature: &JsonValue, start_number: u32) -> (r: Result<Vec<ShapeRecord>, ShapefileError>)
    ensures
        match feature_items(*feature) {
            Some(items) => start_number + items.len() <= u32::MAX ==> (r matches Ok(v)
                && records_match(v@, items, start_number as int)),
            None => r matches Err(e) && e is InvalidGeoJson,
        },
        r matches Err(e) ==> e is InvalidGeoJson,
{
    let null = JsonValue::Null;
    let geom_val = match json_get(feature, "geometry") {
        Some(g) => g,
        None => &null,
    };
    let geometries = convert_geometry(geom_val)?;
    let props_val = match json_get(feature, "properties") {
        Some(p) => p,
        None => &null,
    };
    let attributes = convert_properties(props_val);
    let ghost items = feature_items(*feature)->Some_0;
    let ghost props = field_or_null(*feature, "properties"@);
    let n = geometries.len();
    let mut geometries = geometries;
    let ghost gv = geometry_views(geometries@);
    let mut records: Vec<ShapeRecord> = Vec::new();
    let mut i: usize = 0;
    while i < n
        invariant
            i <= n,
            n == gv.len(),
            geometry_views(geometries@) == gv.skip(i as int),
            geometries@.len() == n - i,
            feature_items(*feature) == Some(items),
            items == gv.map_values(|g: GeometryView| (g, props)),
            properties_match(attributes@, props),
            records_match(records@, items.take(i as int), start_number as int),
        decreases n - i,
    {
        if i > (u32::MAX - start_number) as usize {
            return Err(invalid_geojson("too many records for 32-bit record numbers"));
        }
        let ghost old_g = geometries@;
        let g = geometries.remove(0);
        proof {
            assert(geometries@ =~= old_g.drop_first());
            assert(geometry_views(old_g)[0] == g@);
            assert(geometry_views(geometries@) =~= geometry_views(old_g).drop_first());
            assert(gv.skip(i as int)[0] == g@);
            assert(geometry_views(geometries@) =~= gv.skip(i + 1));
        }
        let number = start_number + i as u32;
        let ghost before = records@;
        records.push(ShapeRecord { record_number: number, geometry: g, attributes: attributes.clone() });
        i = i + 1;
        proof {
            assert(items.take(i as int) =~= items.take(i - 1).push(items[i - 1]));
        }
    }
    assert(items.take(n as int) =~= items);
    Ok(records)
}

proof fn lemma_collection_prefix(fs: Seq<JsonValue>, i: int)
    requires
        0 <= i < fs.len(),
        collection_items(fs) is Some,
    ensures
        collection_items(fs.take(i)) is Some,
        feature_items(fs[i]) is Some,
        collection_items(fs.take(i))->Some_0.len() + feature_items(fs[i])->Some_0.len()
            <= collection_items(fs)->Some_0.len(),
    decreases fs.len() - i,
{
    if i == fs.len() - 1 {
        assert(fs.drop_last() =~= fs.take(i));
    } else {
        lemma_collection_prefix(fs.drop_last(), i);
        assert(fs.drop_last().take(i) =~= fs.take(i));
        assert(fs.drop_last()[i] == fs[i]);
    }
}

proof fn lemma_collection_prefix_none(fs: Seq<JsonValue>, k: int)
    requires
        0 <= k <= fs.len(),
        collection_items(fs.take(k)) is None,
    ensures
        collection_items(fs) is None,
    decreases fs.len() - k,
{
    if k < fs.len() {
        assert(fs.take(k + 1).drop_last() =~= fs.take(k));
        lemma_collection_prefix_none(fs, k + 1);
    } else {
        assert(fs.take(k) =~= fs);
    }
}

/// The bounding box a document declares: its `bbox` member's first four
/// values, when there are at least four and they are numbers.
pub open spec fn declared_bbox_of(root: JsonValue) -> Option<BoundingBox> {
    match field(root, "bbox"@) {
        Some(JsonValue::Array(a, _)) => if a@.len() >= 4 {
            match (a@[0], a@[1], a@[2], a@[3]) {
                (
                    JsonValue::Number(x_min),
                    JsonValue::Number(y_min),
                    JsonValue::Number(x_max),
                    JsonValue::Number(y_max),
                ) => Some(BoundingBox { x_min, y_min, x_max, y_max }),
                _ => None,
            }
        } else {
            None
        },
        _ => None,
    }
}

/// The bounding box the document declares, if it declares a usable one.
pub fn declared_bbox(root: &JsonValue) -> (r: Option<BoundingBox>)
    ensures
        r == declared_bbox_of(*root),
{
    match json_get(root, "bbox") {
        Some(JsonValue::Array(a, _)) => {
            if a.len() >= 4 {
                match (&a[0], &a[1], &a[2], &a[3]) {
                    (
                        JsonValue::Number(x_min),
                        JsonValue::Number(y_min),
                        JsonValue::Number(x_max),
                        JsonValue::Number(y_max),
                    ) => Some(
                        BoundingBox {
                            x_min: x_min.clone(),
                            y_min: y_min.clone(),
                            x_max: x_max.clone(),
                            y_max: y_max.clone(),
                        },
                    ),
                    _ => None,
                }
            } else {
                None
            }
        },
        _ => None,
    }
}

/// What reading a document value returns: for a document that reads, its
/// records numbered from 1 and its declared bounding box (when it has fewer
/// than `u32::MAX` records); `InvalidGeoJson` otherwise, and for an unknown
/// top-level type the reason naming it.
pub open spec fn document_outcome(r: Result<GeoJsonReader, ShapefileError>, root: JsonValue) -> bool {
    &&& match document_items(root) {
        Some(items) => items.len() < u32::MAX ==> (r matches Ok(rd) && records_match(
            rd.spec_records(),
            items,
            1,
        ) && rd.spec_declared_bbox() == declared_bbox_of(root)),
        None => r matches Err(e) && e is InvalidGeoJson,
    }
    &&& r matches Err(e) ==> e is InvalidGeoJson
    &&& field(root, "type"@) matches Some(JsonValue::String(t)) ==> ((!is_geometry_type(t@) && t@
        != "FeatureCollection"@ && t@ != "Feature"@) ==> (r matches Err(
        ShapefileError::InvalidGeoJson { reason },
    ) && reason@ == "unsupported top-level type: "@ + t@))
}

/// A reader over the records of a GeoJSON document.
pub struct GeoJsonReader {
    records: Vec<ShapeRecord>,
    declared_bbox: Option<BoundingBox>,
}

impl GeoJsonReader {
    /// The records, in document order.
    pub closed spec fn spec_records(&self) -> Seq<ShapeRecord> {
        self.records@
    }

    /// The bounding box the document declared, if any.
    pub closed spec fn spec_declared_bbox(&self) -> Option<BoundingBox> {
        self.declared_bbox
    }

    /// Reads a parsed GeoJSON document: a FeatureCollection, a Feature or a
    /// bare geometry. Every geometry becomes a record numbered from 1 in
    /// document order, with its feature's properties.
    pub fn from_value(root: &JsonValue) -> (r: Result<Self, ShapefileError>)
        ensures
            document_outcome(r, *root),
            match document_items(*root) {
                Some(items) => items.len() < u32::MAX ==> (r matches Ok(rd) && records_match(
                    rd.spec_records(),
                    items,
                    1,
                ) && rd.spec_declared_bbox() == declared_bbox_of(*root)),
                None => r matches Err(e) && e is InvalidGeoJson,
            },
            r matches Err(e) ==> e is InvalidGeoJson,
            field(*root, "type"@) matches Some(JsonValue::String(t)) ==> ((!is_geometry_type(t@) && t@
                != "FeatureCollection"@ && t@ != "Feature"@) ==> (r matches Err(
                ShapefileError::InvalidGeoJson { reason },
            ) && reason@ == "unsupported top-level type: "@ + t@)),
    {
        let type_str = match json_get(root, "type") {
            Some(JsonValue::String(t)) => t,
            _ => {
                return Err(invalid_geojson("missing 'type' field"));
            },
        };
        let mut records: Vec<ShapeRecord> = Vec::new();
        if str_eq(type_str.as_str(), "FeatureCollection") {
            let features = match json_get(root, "features") {
                Some(JsonValue::Array(f, _)) => f,
                _ => {
                    return Err(invalid_geojson("FeatureCollection missing 'features' array"));
                },
            };
            let ghost fs = features@;
            assert(document_items(*root) == collection_items(fs));
            let n = features.len();
            let mut next_number: u32 = 1;
            let mut i: usize = 0;
            assert(fs.take(0) =~= Seq::<JsonValue>::empty());
            while i < n
                invariant
                    n == fs.len(),
                    fs == features@,
                    i <= n,
                    field(*root, "type"@) == Some(JsonValue::String(*type_str)),
                    type_str@ == "FeatureCollection"@,
                    document_items(*root) == collection_items(fs),
                    collection_items(fs.take(i as int)) is Some,
                    (collection_items(fs) matches Some(all) && all.len() < u32::MAX) ==> records_match(
                        records@,
                        collection_items(fs.take(i as int))->Some_0,
                        1,
                    ),
                    next_number == records@.len() + 1,
                decreases n - i,
            {
                let ghost a = collection_items(fs.take(i as int))->Some_0;
                proof {
                    assert(fs.take(i + 1).drop_last() =~= fs.take(i as int));
                    assert(fs.take(i + 1).last() == fs[i as int]);
                    if collection_items(fs) is Some {
                        lemma_collection_prefix(fs, i as int);
                    }
                }
                let mut recs = match convert_feature(&features[i], next_number) {
                    Ok(v) => v,
                    Err(e) => {
                        proof {
                            if feature_items(fs[i as int]) is None {
                                lemma_collection_prefix_none(fs, i + 1);
                            }
                        }
                        return Err(e);
                    },
                };
                if recs.len() > (u32::MAX - next_number) as usize {
                    return Err(invalid_geojson("too many records for 32-bit record numbers"));
                }
                proof {
                    if feature_items(fs[i as int]) is None {
                        assert(false);
                    }
                }
                let ghost b = feature_items(fs[i as int])->Some_0;
                let ghost before = records@;
                let ghost added = recs@;
                let count = recs.len();
                records.append(&mut recs);
                next_number = next_number + count as u32;
                i = i + 1;
                proof {
                    assert(collection_items(fs.take(i as int)) == Some(a + b));
                    if collection_items(fs) matches Some(all) && all.len() < u32::MAX {
                        assert(records_match(added, b, (before.len() + 1) as int));
                        assert forall|k: int| 0 <= k < records@.len() implies {
                            &&& (#[trigger] records@[k]).record_number == 1 + k
                            &&& records@[k].geometry@ == (a + b)[k].0
                            &&& properties_match(records@[k].attributes@, (a + b)[k].1)
                        } by {
                            if k >= before.len() {
                                assert(records@[k] == added[k - before.len()]);
                            } else {
                                assert(records@[k] == before[k]);
                            }
                        }
                    }
                }
            }
            assert(fs.take(n as int) =~= fs);
        } else if str_eq(type_str.as_str(), "Feature") {
            records = convert_feature(root, 1)?;
        } else if str_eq(type_str.as_str(), "Point") || str_eq(type_str.as_str(), "MultiPoint")
            || str_eq(type_str.as_str(), "LineString") || str_eq(type_str.as_str(), "MultiLineString")
            || str_eq(type_str.as_str(), "Polygon") || str_eq(type_str.as_str(), "MultiPolygon") {
            let geometries = convert_geometry(root)?;
            let ghost gv = geometry_views(geometries@);
            let ghost items = gv.map_values(|g: GeometryView| (g, JsonValue::Null));
            assert(document_items(*root) == Some(items));
            let n = geometries.len();
            let mut geometries = geometries;
            let mut i: usize = 0;
            while i < n
                invariant
                    i <= n,
                    n == gv.len(),
                    geometries@.len() == n - i,
                    geometry_views(geometries@) == gv.skip(i as int),
                    items == gv.map_values(|g: GeometryView| (g, JsonValue::Null)),
                    document_items(*root) == Some(items),
                    records_match(records@, items.take(i as int), 1),
                decreases n - i,
            {
                if i >= u32::MAX as usize {
                    return Err(invalid_geojson("too many records for 32-bit record numbers"));
                }
                let ghost old_g = geometries@;
                let g = geometries.remove(0);
                proof {
                    assert(geometries@ =~= old_g.drop_first());
                    assert(geometry_views(old_g)[0] == g@);
                    assert(geometry_views(geometries@) =~= geometry_views(old_g).drop_first());
                    assert(gv.skip(i as int)[0] == g@);
                    assert(geometry_views(geometries@) =~= gv.skip(i + 1));
                }
                let attributes = Attributes::new();
                records.push(ShapeRecord { record_number: (i + 1) as u32, geometry: g, attributes });
                i = i + 1;
                proof {
                    assert(items.take(i as int) =~= items.take(i - 1).push(items[i - 1]));
                }
            }
            assert(items.take(n as int) =~= items);
        } else {
            let mut reason = "unsupported top-level type: ".to_string();
            reason.append(type_str.as_str());
            return Err(ShapefileError::InvalidGeoJson { reason });
        }
        let declared_bbox = declared_bbox(root);
        Ok(GeoJsonReader { records, declared_bbox })
    }

    /// Parses a GeoJSON string: the text is read as JSON (serde_json), and
    /// the value as `from_value` reads it. Fails with the parser's message
    /// where the text is no JSON.
    pub fn from_str(json: &str) -> (r: Result<Self, ShapefileError>)
        ensures
            spec_json_node(json@) matches Err(m) ==> (r matches Err(ShapefileError::GeoJsonError(t)) && t@
                == m),
            !json_text_ok(json@, JSON_DEPTH as nat) ==> (r matches Err(e) && e is GeoJsonError),
            json_text_ok(json@, JSON_DEPTH as nat) ==> exists|v: JsonValue|
                json_text_is(v, json@, JSON_DEPTH as nat) && #[trigger] document_outcome(r, v),
    {
        match parse_json(json) {
            Ok(root) => {
                let r = GeoJsonReader::from_value(&root);
                assert(document_outcome(r, root));
                r
            },
            Err(m) => Err(ShapefileError::GeoJsonError(m)),
        }
    }

    /// Returns the number of records.
    pub fn len(&self) -> (r: usize)
        ensures
            r == self.spec_records().len(),
    {
        self.records.len()
    }

    /// Returns `true` if there are no records.
    pub fn is_empty(&self) -> (r: bool)
        ensures
            r == (self.spec_records().len() == 0),
    {
        self.records.len() == 0
    }

    /// The bounding box the document declares, if it declares a usable one.
    pub fn declared_bbox(&self) -> (r: Option<&BoundingBox>)
        ensures
            r is Some <==> self.spec_declared_bbox() is Some,
            r matches Some(b) ==> self.spec_declared_bbox() == Some(*b),
    {
        match &self.declared_bbox {
            Some(b) => Some(b),
            None => None,
        }
    }

    /// Returns all records, or at most `limit` records if specified.
    pub fn records(&self, limit: Option<usize>) -> (r: Vec<&ShapeRecord>)
        ensures
            record_derefs(r@) == self.spec_records().take(
                limited(limit, self.spec_records().len() as int),
            ),
    {
        take_records(&self.records, limit)
    }

    /// Returns every record, in order.
    pub fn iter_records(&self) -> (r: Vec<&ShapeRecord>)
        ensures
            record_derefs(r@) == self.spec_records(),
    {
        let r = take_records(&self.records, None);
        assert(self.records@.take(self.records@.len() as int) =~= self.records@);
        r
    }

    /// Returns the record at the given index, or `None` if out of bounds.
    pub fn get(&self, index: usize) -> (r: Option<&ShapeRecord>)
        ensures
            index < self.spec_records().len() ==> r == Some(&self.spec_records()[index as int]),
            index >= self.spec_records().len() ==> r is None,
    {
        if index < self.records.len() {
            Some(&self.records[index])
        } else {
            None
        }
    }

    /// Filters records where a Text attribute starts with the given prefix.
    pub fn filter_by_attribute_starts_with(&self, field: &str, prefix: &str) -> (r: Vec<&ShapeRecord>)
        ensures
            record_derefs(r@) == keep(
                self.spec_records(),
                |rec: ShapeRecord| field_starts_with(rec.attributes@, field@, prefix@),
            ),
    {
        records_starting_with(&self.records, field, prefix)
    }

    /// The numbers that `describe` summarises: fails with `FieldNotFound`
    /// when no record has `field`, and with `DescribeOnNonNumericField` when
    /// none of its values is a number.
    pub fn numeric_values(&self, field: &str) -> (r: Result<Vec<Number>, ShapefileError>)
        ensures
            !some_record_has(self.spec_records(), field@) ==> (r matches Err(e) && e is FieldNotFound),
            some_record_has(self.spec_records(), field@) ==> match r {
                Ok(v) => v@ == record_numbers(self.spec_records(), field@) && v@.len() > 0,
                Err(e) => e is DescribeOnNonNumericField && record_numbers(
                    self.spec_records(),
                    field@,
                ).len() == 0,
            },
    {
        collect_numeric_values(&self.records, field)
    }
}

// ---------------------------------------------------------------------------
// Writing geometries as GeoJSON
// ---------------------------------------------------------------------------

/// `v` is the coordinate array `[x, y]` of `p`.
pub open spec fn is_point_json(v: JsonValue, p: Point) -> bool {
    &&& v matches JsonValue::Array(a, None)
    &&& a@.len() == 2
    &&& a@[0] == JsonValue::Number(p.x)
    &&& a@[1] == JsonValue::Number(p.y)
}

/// `v` is the array of the coordinate arrays of `ps`.
pub open spec fn is_points_json(v: JsonValue, ps: Seq<Point>) -> bool {
    &&& v matches JsonValue::Array(a, None)
    &&& a@.len() == ps.len()
    &&& forall|i: int| 0 <= i < ps.len() ==> is_point_json(#[trigger] a@[i], ps[i])
}

/// `v` is the array of the point arrays of `ls`.
pub open spec fn is_lines_json(v: JsonValue, ls: Seq<Seq<Point>>) -> bool {
    &&& v matches JsonValue::Array(a, None)
    &&& a@.len() == ls.len()
    &&& forall|i: int| 0 <= i < ls.len() ==> is_points_json(#[trigger] a@[i], ls[i])
}

/// The coordinates of `v` when it is the object `{"type": t, "coordinates": c}`.
pub open spec fn typed_coordinates(v: JsonValue, t: Seq<char>) -> Option<JsonValue> {
    match v {
        JsonValue::Object(e, None) => if e@.len() == 2 && e@[0].0@ == "type"@ && e@[1].0@
            == "coordinates"@ && (e@[0].1 matches JsonValue::String(s) && s@ == t) {
            Some(e@[1].1)
        } else {
            None
        },
        _ => None,
    }
}

/// `v` is the GeoJSON geometry object of `g`: a polyline of one part is a
/// LineString, of several a MultiLineString; a null geometry, and one with
/// Z or M values, is `null`.
pub open spec fn is_geometry_json(v: JsonValue, g: GeometryView) -> bool {
    match g {
        GeometryView::Null => v is Null,
        GeometryView::Point(p) => typed_coordinates(v, "Point"@) matches Some(c) && is_point_json(c, p),
        GeometryView::Polyline(parts) => if parts.len() == 1 {
            typed_coordinates(v, "LineString"@) matches Some(c) && is_points_json(c, parts[0])
        } else {
            typed_coordinates(v, "MultiLineString"@) matches Some(c) && is_lines_json(c, parts)
        },
        GeometryView::Polygon(rings) => typed_coordinates(v, "Polygon"@) matches Some(c)
            && is_lines_json(c, rings),
        GeometryView::MultiPoint(ps) => typed_coordinates(v, "MultiPoint"@) matches Some(c)
            && is_points_json(c, ps),
        _ => v is Null,
    }
}

fn point_json(p: &Point) -> (r: JsonValue)
    ensures
        is_point_json(r, *p),
{
    let mut a: Vec<JsonValue> = Vec::new();
    a.push(JsonValue::Number(p.x.clone()));
    a.push(JsonValue::Number(p.y.clone()));
    JsonValue::Array(a, None)
}

fn points_json(ps: &Vec<Point>) -> (r: JsonValue)
    ensures
        is_points_json(r, ps@),
{
    let mut a: Vec<JsonValue> = Vec::new();
    let n = ps.len();
    let mut i: usize = 0;
    while i < n
        invariant
            n == ps@.len(),
            i <= n,
            a@.len() == i,
            forall|k: int| 0 <= k < i ==> is_point_json(#[trigger] a@[k], ps@[k]),
        decreases n - i,
    {
        a.push(point_json(&ps[i]));
        i = i + 1;
    }
    JsonValue::Array(a, None)
}

fn lines_json(ls: &Vec<Vec<Point>>) -> (r: JsonValue)
    ensures
        is_lines_json(r, parts_view(ls@)),
{
    let mut a: Vec<JsonValue> = Vec::new();
    let n = ls.len();
    let mut i: usize = 0;
    while i < n
        invariant
            n == ls@.len(),
            i <= n,
            a@.len() == i,
            forall|k: int| 0 <= k < i ==> is_points_json(#[trigger] a@[k], parts_view(ls@)[k]),
        decreases n - i,
    {
        a.push(points_json(&ls[i]));
        i = i + 1;
    }
    JsonValue::Array(a, None)
}

fn rings_json(rs: &Vec<Ring>) -> (r: JsonValue)
    ensures
        is_lines_json(r, rings_view(rs@)),
{
    let mut a: Vec<JsonValue> = Vec::new();
    let n = rs.len();
    let mut i: usize = 0;
    while i < n
        invariant
            n == rs@.len(),
            i <= n,
            a@.len() == i,
            forall|k: int| 0 <= k < i ==> is_points_json(#[trigger] a@[k], rings_view(rs@)[k]),
        decreases n - i,
    {
        a.push(points_json(&rs[i].points));
        i = i + 1;
    }
    JsonValue::Array(a, None)
}

fn typed_object(t: &str, coordinates: JsonValue) -> (r: JsonValue)
    ensures
        typed_coordinates(r, t@) == Some(coordinates),
{
    let mut e: Vec<(String, JsonValue)> = Vec::new();
    e.push(("type".to_string(), JsonValue::String(t.to_string())));
    e.push(("coordinates".to_string(), coordinates));
    JsonValue::Object(e, None)
}

/// The GeoJSON geometry object of a geometry (`null` for a null geometry).
pub fn geometry_to_geojson_value(geom: &Geometry) -> (r: JsonValue)
    ensures
        is_geometry_json(r, geom@),
{
    match geom {
        Geometry::Null => JsonValue::Null,
        Geometry::Point(p) => typed_object("Point", point_json(p)),
        Geometry::Polyline(pl) => {
            if pl.parts.len() == 1 {
                typed_object("LineString", points_json(&pl.parts[0]))
            } else {
                typed_object("MultiLineString", lines_json(&pl.parts))
            }
        },
        Geometry::Polygon(pg) => typed_object("Polygon", rings_json(&pg.rings)),
        Geometry::MultiPoint(mp) => typed_object("MultiPoint", points_json(&mp.points)),
        _ => JsonValue::Null,
    }
}

// ---------------------------------------------------------------------------
// Export
// ---------------------------------------------------------------------------

/// The JSON value an attribute is written as: text and dates as strings,
/// numbers as numbers, logicals as booleans, null as null.
pub open spec fn attribute_json(a: AttributeValue) -> JsonValue {
    match a {
        AttributeValue::Text(s) => JsonValue::String(s),
        AttributeValue::Date(d) => JsonValue::String(d),
        AttributeValue::Numeric(n) => JsonValue::Number(n),
        AttributeValue::Logical(b) => JsonValue::Bool(b),
        AttributeValue::Null => JsonValue::Null,
    }
}

/// `props` is the `properties` object of attributes `attrs`: an object whose
/// members (the last one of a repeated name) are the attributes' names, each
/// with the attribute's JSON value.
pub open spec fn is_properties_json(props: JsonValue, attrs: Map<Seq<char>, AttributeValue>) -> bool {
    match props {
        JsonValue::Object(entries, None) => forall|key: Seq<char>|
            {
                &&& #[trigger] attrs.contains_key(key) <==> last_value(entries@, key) is Some
                &&& attrs.contains_key(key) ==> last_value(entries@, key) == Some(attribute_json(attrs[key]))
            },
        _ => false,
    }
}

/// `v` is the GeoJSON Feature of `rec`: members `type` (`"Feature"`),
/// `geometry` (the geometry's GeoJSON object) and `properties`.
pub open spec fn is_feature_json(v: JsonValue, rec: ShapeRecord) -> bool {
    &&& v matches JsonValue::Object(e, None)
    &&& e@.len() == 3
    &&& e@[0].0@ == "type"@ && (e@[0].1 matches JsonValue::String(t) && t@ == "Feature"@)
    &&& e@[1].0@ == "geometry"@ && is_geometry_json(e@[1].1, rec.geometry@)
    &&& e@[2].0@ == "properties"@ && is_properties_json(e@[2].1, rec.attributes@)
}

/// `v` is the GeoJSON FeatureCollection of `records`: members `type`
/// (`"FeatureCollection"`) and `features`, one Feature per record in order.
pub open spec fn is_feature_collection_json(v: JsonValue, records: Seq<&ShapeRecord>) -> bool {
    &&& v matches JsonValue::Object(e, None)
    &&& e@.len() == 2
    &&& e@[0].0@ == "type"@ && (e@[0].1 matches JsonValue::String(t) && t@ == "FeatureCollection"@)
    &&& e@[1].0@ == "features"@
    &&& e@[1].1 matches JsonValue::Array(fs, None)
    &&& fs@.len() == records.len()
    &&& forall|k: int| 0 <= k < records.len() ==> is_feature_json(#[trigger] fs@[k], *records[k])
}

/// The JSON members that a list of attribute entries is written as, in order.
pub open spec fn members_match(js: Seq<(String, JsonValue)>, s: Seq<(String, AttributeValue)>) -> bool {
    &&& js.len() == s.len()
    &&& forall|j: int| 0 <= j < s.len() ==> (#[trigger] js[j]).0@ == s[j].0@ && js[j].1 == attribute_json(s[j].1)
}

proof fn lemma_members_last_value(js: Seq<(String, JsonValue)>, s: Seq<(String, AttributeValue)>, key: Seq<char>)
    requires
        members_match(js, s),
    ensures
        entries_map(s).contains_key(key) <==> last_value(js, key) is Some,
        entries_map(s).contains_key(key) ==> last_value(js, key) == Some(attribute_json(entries_map(s)[key])),
    decreases s.len(),
{
    if s.len() > 0 {
        let js2 = js.drop_last();
        let s2 = s.drop_last();
        assert(members_match(js2, s2)) by {
            assert forall|j: int| 0 <= j < s2.len() implies (#[trigger] js2[j]).0@ == s2[j].0@ && js2[j].1
                == attribute_json(s2[j].1) by {
                assert(js2[j] == js[j]);
                assert(s2[j] == s[j]);
            }
        }
        lemma_members_last_value(js2, s2, key);
        assert(js.last() == js[js.len() - 1]);
        assert(s.last() == s[s.len() - 1]);
    }
}

/// The JSON value of an attribute.
fn attribute_to_json(a: &AttributeValue) -> (r: JsonValue)
    ensures
        r == attribute_json(*a),
{
    match a {
        AttributeValue::Text(s) => JsonValue::String(s.clone()),
        AttributeValue::Date(d) => JsonValue::String(d.clone()),
        AttributeValue::Numeric(n) => JsonValue::Number(n.clone()),
        AttributeValue::Logical(b) => JsonValue::Bool(*b),
        AttributeValue::Null => JsonValue::Null,
    }
}

/// The `properties` object of a record's attributes.
fn properties_json(attrs: &Attributes) -> (r: JsonValue)
    ensures
        is_properties_json(r, attrs@),
{
    let entries = attrs.entries();
    let mut out: Vec<(String, JsonValue)> = Vec::new();
    let mut i: usize = 0;
    while i < entries.len()
        invariant
            i <= entries@.len(),
            members_match(out@, entries@.take(i as int)),
        decreases entries@.len() - i,
    {
        let name = entries[i].0.clone();
        let value = attribute_to_json(&entries[i].1);
        out.push((name, value));
        i = i + 1;
        proof {
            let t = entries@.take(i as int);
            assert forall|j: int| 0 <= j < t.len() implies (#[trigger] out@[j]).0@ == t[j].0@ && out@[j].1
                == attribute_json(t[j].1) by {
                assert(t[j] == entries@[j]);
            }
        }
    }
    proof {
        assert(entries@.take(entries@.len() as int) =~= entries@);
        assert forall|key: Seq<char>| #![trigger attrs@.contains_key(key)]
            (attrs@.contains_key(key) <==> last_value(out@, key) is Some) && (attrs@.contains_key(key)
                ==> last_value(out@, key) == Some(attribute_json(attrs@[key]))) by {
            lemma_members_last_value(out@, entries@, key);
        }
    }
    JsonValue::Object(out, None)
}

/// The GeoJSON Feature of a record.
pub fn feature_value(rec: &ShapeRecord) -> (r: JsonValue)
    ensures
        is_feature_json(r, *rec),
{
    let mut e: Vec<(String, JsonValue)> = Vec::new();
    e.push(("type".to_string(), JsonValue::String("Feature".to_string())));
    e.push(("geometry".to_string(), geometry_to_geojson_value(&rec.geometry)));
    e.push(("properties".to_string(), properties_json(&rec.attributes)));
    JsonValue::Object(e, None)
}

/// The GeoJSON FeatureCollection of records, one Feature per record in
/// order: the structure that exporting to GeoJSON writes out.
pub fn feature_collection_value(records: &Vec<&ShapeRecord>) -> (r: JsonValue)
    ensures
        is_feature_collection_json(r, records@),
{
    let mut fs: Vec<JsonValue> = Vec::new();
    let mut i: usize = 0;
    while i < records.len()
        invariant
            i <= records@.len(),
            fs@.len() == i,
            forall|k: int| 0 <= k < i ==> is_feature_json(#[trigger] fs@[k], *records@[k]),
        decreases records@.len() - i,
    {
        let f = feature_value(records[i]);
        fs.push(f);
        i = i + 1;
    }
    let mut e: Vec<(String, JsonValue)> = Vec::new();
    e.push(("type".to_string(), JsonValue::String("FeatureCollection".to_string())));
    e.push(("features".to_string(), JsonValue::Array(fs, None)));
    JsonValue::Object(e, None)
}

// ---------------------------------------------------------------------------
// Reading back what is written
// ---------------------------------------------------------------------------

/// The geometries a GeoJSON export keeps: null, points, polylines, polygons
/// and multipoints (the Z and M kinds are written as `null`).
pub open spec fn is_exportable(g: GeometryView) -> bool {
    ||| g is Null
    ||| g is Point
    ||| g is Polyline
    ||| g is Polygon
    ||| g is MultiPoint
}

proof fn lemma_member_names_differ()
    ensures
        "type"@ != "coordinates"@,
        "type"@ != "geometry"@,
        "type"@ != "properties"@,
        "geometry"@ != "properties"@,
        "Point"@ != "MultiPoint"@,
        "Point"@ != "LineString"@,
        "Point"@ != "MultiLineString"@,
        "Point"@ != "Polygon"@,
        "MultiPoint"@ != "LineString"@,
        "MultiPoint"@ != "MultiLineString"@,
        "MultiPoint"@ != "Polygon"@,
        "LineString"@ != "MultiLineString"@,
        "LineString"@ != "Polygon"@,
        "MultiLineString"@ != "Polygon"@,
        "FeatureCollection"@ != "Feature"@,
{
    reveal_strlit("type");
    reveal_strlit("coordinates");
    reveal_strlit("geometry");
    reveal_strlit("properties");
    reveal_strlit("Point");
    reveal_strlit("MultiPoint");
    reveal_strlit("LineString");
    reveal_strlit("MultiLineString");
    reveal_strlit("Polygon");
    reveal_strlit("FeatureCollection");
    reveal_strlit("Feature");
    assert("type"@.len() != "coordinates"@.len());
    assert("type"@.len() != "geometry"@.len());
    assert("type"@.len() != "properties"@.len());
    assert("geometry"@[0] != "properties"@[0]);
    assert("Point"@.len() != "MultiPoint"@.len());
    assert("Point"@.len() != "LineString"@.len());
    assert("Point"@.len() != "MultiLineString"@.len());
    assert("Point"@.len() != "Polygon"@.len());
    assert("MultiPoint"@[0] != "LineString"@[0]);
    assert("MultiPoint"@.len() != "MultiLineString"@.len());
    assert("MultiPoint"@.len() != "Polygon"@.len());
    assert("LineString"@.len() != "MultiLineString"@.len());
    assert("LineString"@.len() != "Polygon"@.len());
    assert("MultiLineString"@.len() != "Polygon"@.len());
    assert("FeatureCollection"@.len() != "Feature"@.len());
}

proof fn lemma_points_read_back(a: Seq<JsonValue>, ps: Seq<Point>)
    requires
        a.len() == ps.len(),
        forall|i: int| 0 <= i < ps.len() ==> is_point_json(#[trigger] a[i], ps[i]),
    ensures
        points_of(a) == Some(ps),
    decreases a.len(),
{
    if a.len() > 0 {
        lemma_points_read_back(a.drop_last(), ps.drop_last());
        let last = a.last();
        assert(is_point_json(a[a.len() - 1], ps[ps.len() - 1]));
        assert(ps.drop_last().push(ps.last()) =~= ps);
    } else {
        assert(ps =~= Seq::<Point>::empty());
    }
}

proof fn lemma_lines_read_back(a: Seq<JsonValue>, ls: Seq<Seq<Point>>)
    requires
        a.len() == ls.len(),
        forall|i: int| 0 <= i < ls.len() ==> is_points_json(#[trigger] a[i], ls[i]),
    ensures
        lines_of(a) == Some(ls),
    decreases a.len(),
{
    if a.len() > 0 {
        lemma_lines_read_back(a.drop_last(), ls.drop_last());
        let i = a.len() - 1;
        assert(is_points_json(a[i], ls[i]));
        let inner = a[i]->Array_0;
        lemma_points_read_back(inner@, ls[i]);
        assert(ls.drop_last().push(ls.last()) =~= ls);
    } else {
        assert(ls =~= Seq::<Seq<Point>>::empty());
    }
}

/// What the export writes for a geometry reads back as that geometry.
pub proof fn lemma_geometry_reads_back(v: JsonValue, g: GeometryView)
    requires
        is_geometry_json(v, g),
        is_exportable(g),
    ensures
        geometries_of(v) == Some(seq![g]),
{
    lemma_member_names_differ();
    reveal_with_fuel(entries_get, 3);
    match g {
        GeometryView::Null => {},
        GeometryView::Point(p) => {
            let c = typed_coordinates(v, "Point"@)->Some_0;
            assert(coordinates_of(v) == Some(c->Array_0@));
        },
        GeometryView::Polyline(parts) => {
            if parts.len() == 1 {
                let c = typed_coordinates(v, "LineString"@)->Some_0;
                lemma_points_read_back(c->Array_0@, parts[0]);
                assert(seq![parts[0]] =~= parts);
            } else {
                let c = typed_coordinates(v, "MultiLineString"@)->Some_0;
                lemma_lines_read_back(c->Array_0@, parts);
            }
        },
        GeometryView::Polygon(rings) => {
            let c = typed_coordinates(v, "Polygon"@)->Some_0;
            lemma_lines_read_back(c->Array_0@, rings);
        },
        GeometryView::MultiPoint(ps) => {
            let c = typed_coordinates(v, "MultiPoint"@)->Some_0;
            lemma_points_read_back(c->Array_0@, ps);
        },
        _ => {},
    }
}

/// Reading back an exported FeatureCollection gives one item per record, in
/// order, with that record's geometry, wherever every geometry is one the
/// export keeps; `from_value` then numbers them from 1 (its
/// `document_outcome`).
pub proof fn lemma_export_reads_back(v: JsonValue, records: Seq<&ShapeRecord>)
    requires
        is_feature_collection_json(v, records),
        forall|k: int| 0 <= k < records.len() ==> is_exportable((#[trigger] records[k]).geometry@),
    ensures
        document_items(v) matches Some(items) && items.len() == records.len() && forall|k: int|
            0 <= k < records.len() ==> (#[trigger] items[k]).0 == records[k].geometry@ && items[k].1
                == field_or_null(v->Object_0@[1].1->Array_0@[k], "properties"@),
{
    lemma_member_names_differ();
    reveal_with_fuel(entries_get, 3);
    let e = v->Object_0;
    let fs = e@[1].1->Array_0@;
    assert(field(v, "type"@) == Some(e@[0].1));
    assert(field(v, "features"@) == Some(e@[1].1)) by {
        reveal_strlit("type");
        reveal_strlit("features");
        assert("type"@.len() != "features"@.len());
    }
    lemma_collection_reads_back(fs, records, fs.len() as int);
    assert(fs.take(fs.len() as int) =~= fs);
}

proof fn lemma_collection_reads_back(fs: Seq<JsonValue>, records: Seq<&ShapeRecord>, n: int)
    requires
        fs.len() == records.len(),
        0 <= n <= fs.len(),
        forall|k: int| 0 <= k < records.len() ==> is_feature_json(#[trigger] fs[k], *records[k]),
        forall|k: int| 0 <= k < records.len() ==> is_exportable((#[trigger] records[k]).geometry@),
    ensures
        collection_items(fs.take(n)) matches Some(items) && items.len() == n && forall|k: int|
            0 <= k < n ==> (#[trigger] items[k]).0 == records[k].geometry@ && items[k].1 == field_or_null(
                fs[k],
                "properties"@,
            ),
    decreases n,
{
    lemma_member_names_differ();
    reveal_with_fuel(entries_get, 3);
    if n == 0 {
        assert(fs.take(0) =~= Seq::<JsonValue>::empty());
    } else {
        lemma_collection_reads_back(fs, records, n - 1);
        let f = fs[n - 1];
        assert(is_feature_json(f, *records[n - 1]));
        assert(is_exportable(records[n - 1].geometry@));
        let e = f->Object_0;
        assert(field(f, "geometry"@) == Some(e@[1].1));
        assert(field_or_null(f, "geometry"@) == e@[1].1);
        lemma_geometry_reads_back(e@[1].1, records[n - 1].geometry@);
        assert(fs.take(n).drop_last() =~= fs.take(n - 1));
        assert(fs.take(n).last() == f);
        let a = collection_items(fs.take(n - 1))->Some_0;
        let b = feature_items(f)->Some_0;
        assert(b.len() == 1 && b[0].0 == records[n - 1].geometry@);
        assert(b[0].1 == field_or_null(f, "properties"@));
        assert forall|k: int| 0 <= k < n implies (#[trigger] (a + b)[k]).0 == records[k].geometry@ && (a
            + b)[k].1 == field_or_null(fs[k], "properties"@) by {
            if k < n - 1 {
                assert((a + b)[k] == a[k]);
            } else {
                assert((a + b)[k] == b[0]);
            }
        }
    }
}

/// An attribute is written as a JSON value carrying it: a number as that
/// number, text and a date as that string, a logical as that boolean, null
/// as null; and reading that value back as a property gives the attribute
/// again (a date comes back as text, as GeoJSON has no dates).
pub proof fn lemma_attribute_reads_back(a: AttributeValue)
    ensures
        a matches AttributeValue::Numeric(n) ==> attribute_json(a) == JsonValue::Number(n),
        a matches AttributeValue::Text(t) ==> attribute_json(a) == JsonValue::String(t),
        a matches AttributeValue::Logical(b) ==> attribute_json(a) == JsonValue::Bool(b),
        a is Null ==> attribute_json(a) is Null,
        !(a is Date) ==> attribute_matches(a, attribute_json(a)),
        a matches AttributeValue::Date(d) ==> attribute_matches(AttributeValue::Text(d), attribute_json(a)),
{
}

/// The `properties` object written for attributes without dates reads back
/// as those same attributes.
pub proof fn lemma_properties_read_back(p: JsonValue, attrs: Map<Seq<char>, AttributeValue>)
    requires
        is_properties_json(p, attrs),
        forall|key: Seq<char>| #[trigger] attrs.contains_key(key) ==> !(attrs[key] is Date),
    ensures
        properties_match(attrs, p),
{
    assert forall|key: Seq<char>|
        {
            &&& #[trigger] attrs.contains_key(key) <==> last_value(p->Object_0@, key) is Some
            &&& attrs.contains_key(key) ==> attribute_matches(attrs[key], last_value(p->Object_0@, key)->Some_0)
        } by {
        if attrs.contains_key(key) {
            lemma_attribute_reads_back(attrs[key]);
        }
    }
}

/// Reading back an exported FeatureCollection gives each record's
/// attributes as its properties, wherever no attribute is a date.
pub proof fn lemma_export_properties_read_back(v: JsonValue, records: Seq<&ShapeRecord>, k: int)
    requires
        is_feature_collection_json(v, records),
        0 <= k < records.len(),
        forall|key: Seq<char>| #[trigger] records[k].attributes@.contains_key(key) ==> !(records[k].attributes@[key] is Date),
    ensures
        ({
            let f = v->Object_0@[1].1->Array_0@[k];
            properties_match(records[k].attributes@, field_or_null(f, "properties"@))
        }),
{
    lemma_member_names_differ();
    reveal_with_fuel(entries_get, 4);
    let f = v->Object_0@[1].1->Array_0@[k];
    assert(is_feature_json(f, *records[k]));
    let e = f->Object_0;
    assert(field(f, "properties"@) == Some(e@[2].1));
    lemma_properties_read_back(e@[2].1, records[k].attributes@);
}

} // verus!
