//! The GML reader as a state machine over XML events: its state as plain
//! values, what each event does to that state, and what a whole document
//! yields.
use crate::gml_reader::{
    coordinate_tuples, coordinates_ok, is_gml_tag, is_member_tag, is_tag, pos_list_ok, pos_ok,
    spec_local_name, GeomState,
};
use crate::models::attribute::{AttrView, AttributeValue};
use crate::models::geometry::{GeometryView, Point, Polygon};
use crate::models::record::ShapeRecord;
use crate::mvt_reader::keep;
use crate::number::{is_float_literal, NumberView};
use crate::text::{spec_utf8_lossy, split_on, trim_seq, ws_tokens};
use vstd::prelude::*;

verus! {

// ---------------------------------------------------------------------------
// Values
// ---------------------------------------------------------------------------

/// A coordinate pair as values: x (longitude), then y (latitude).
pub type PointV = (NumberView, NumberView);

/// The values of a point.
pub open spec fn pv(p: Point) -> PointV {
    (p.x@, p.y@)
}

/// The values of a list of points.
pub open spec fn pvs(s: Seq<Point>) -> Seq<PointV> {
    s.map_values(|p: Point| pv(p))
}

/// The values of lists of points.
pub open spec fn pvss(s: Seq<Seq<Point>>) -> Seq<Seq<PointV>> {
    s.map_values(|q: Seq<Point>| pvs(q))
}

/// The values of point vectors.
pub open spec fn vecs_v(s: Seq<Vec<Point>>) -> Seq<Seq<PointV>> {
    s.map_values(|q: Vec<Point>| pvs(q@))
}

/// The values of the rings of polygons.
pub open spec fn polys_v(s: Seq<Polygon>) -> Seq<Seq<Seq<PointV>>> {
    s.map_values(|p: Polygon| pvss(p@))
}

/// The values of an optional text.
pub open spec fn opt_str(s: Option<String>) -> Option<Seq<char>> {
    match s {
        Some(t) => Some(t@),
        None => None,
    }
}

/// A geometry the GML reader yields, as values.
pub enum GeomV {
    Null,
    Point(PointV),
    Polyline(Seq<Seq<PointV>>),
    Polygon(Seq<Seq<PointV>>),
    /// A kind the GML reader never yields (multipoints and the Z and M kinds).
    Other,
}

/// The values of a geometry.
pub open spec fn geom_v(g: GeometryView) -> GeomV {
    match g {
        GeometryView::Null => GeomV::Null,
        GeometryView::Point(p) => GeomV::Point(pv(p)),
        GeometryView::Polyline(parts) => GeomV::Polyline(pvss(parts)),
        GeometryView::Polygon(rings) => GeomV::Polygon(pvss(rings)),
        _ => GeomV::Other,
    }
}

/// The values of an attribute map.
pub open spec fn attrs_v(m: Map<Seq<char>, AttributeValue>) -> Map<Seq<char>, AttrView> {
    m.map_values(|v: AttributeValue| v@)
}

/// The values of records: each one's geometry and attributes.
pub open spec fn records_v(recs: Seq<ShapeRecord>) -> Seq<(GeomV, Map<Seq<char>, AttrView>)> {
    recs.map_values(|r: ShapeRecord| (geom_v(r.geometry@), attrs_v(r.attributes@)))
}

/// Inserting into a map inserts the value's view.
pub proof fn lemma_attrs_v_insert(m: Map<Seq<char>, AttributeValue>, k: Seq<char>, v: AttributeValue)
    ensures
        attrs_v(m.insert(k, v)) == attrs_v(m).insert(k, v@),
{
    assert(attrs_v(m.insert(k, v)) =~= attrs_v(m).insert(k, v@));
}

/// The values of a list with one more point.
pub proof fn lemma_pvs_push(s: Seq<Point>, p: Point)
    ensures
        pvs(s.push(p)) == pvs(s).push(pv(p)),
{
    assert(pvs(s.push(p)) =~= pvs(s).push(pv(p)));
}

/// The values of two lists joined.
pub proof fn lemma_pvs_add(a: Seq<Point>, b: Seq<Point>)
    ensures
        pvs(a + b) == pvs(a) + pvs(b),
{
    assert(pvs(a + b) =~= pvs(a) + pvs(b));
}

/// The values of point vectors with one more vector.
pub proof fn lemma_vecs_v_push(s: Seq<Vec<Point>>, v: Vec<Point>)
    ensures
        vecs_v(s.push(v)) == vecs_v(s).push(pvs(v@)),
{
    assert(vecs_v(s.push(v)) =~= vecs_v(s).push(pvs(v@)));
}

/// The values of polygons with one more polygon.
pub proof fn lemma_polys_v_push(s: Seq<Polygon>, p: Polygon)
    ensures
        polys_v(s.push(p)) == polys_v(s).push(pvss(p@)),
{
    assert(polys_v(s.push(p)) =~= polys_v(s).push(pvss(p@)));
}

// ---------------------------------------------------------------------------
// Texts
// ---------------------------------------------------------------------------

/// The point a `gml:pos` text gives, if it parses.
pub open spec fn pos_v(text: Seq<char>) -> Option<PointV> {
    if pos_ok(text) {
        let t = ws_tokens(text);
        Some((NumberView::Decimal(t[1]), NumberView::Decimal(t[0])))
    } else {
        None
    }
}

/// The points a `gml:posList` text gives, if it parses.
pub open spec fn pos_list_v(text: Seq<char>) -> Option<Seq<PointV>> {
    if pos_list_ok(text) {
        let t = ws_tokens(text);
        Some(
            Seq::new(
                (t.len() / 2) as nat,
                |k: int| (NumberView::Decimal(t[2 * k + 1]), NumberView::Decimal(t[2 * k])),
            ),
        )
    } else {
        None
    }
}

/// The points a `gml:coordinates` text gives, if it parses.
pub open spec fn coords_v(text: Seq<char>) -> Option<Seq<PointV>> {
    if coordinates_ok(text) {
        let t = coordinate_tuples(text);
        Some(
            Seq::new(
                t.len(),
                |k: int|
                    (
                        NumberView::Decimal(split_on(t[k], ',')[1]),
                        NumberView::Decimal(split_on(t[k], ',')[0]),
                    ),
            ),
        )
    } else {
        None
    }
}

/// The value of an attribute element's text: `Null` when blank, a number
/// when the trimmed text is one, the trimmed text otherwise.
pub open spec fn value_v(text: Seq<char>) -> AttrView {
    let t = trim_seq(text);
    if t.len() == 0 {
        AttrView::Null
    } else if is_float_literal(t) {
        AttrView::Numeric(NumberView::Decimal(t))
    } else {
        AttrView::Text(t)
    }
}

/// The name an element stands for: its local name, decoded leniently.
pub open spec fn element_name(tag: Seq<u8>) -> Seq<char> {
    spec_utf8_lossy(spec_local_name(tag))
}

/// The value of the last attribute whose local name is `srsName`.
pub open spec fn last_srs(attrs: Seq<(Seq<u8>, Seq<u8>)>) -> Option<Seq<u8>>
    decreases attrs.len(),
{
    if attrs.len() == 0 {
        None
    } else if is_tag(spec_local_name(attrs.last().0), "srsName") {
        Some(attrs.last().1)
    } else {
        last_srs(attrs.drop_last())
    }
}

// ---------------------------------------------------------------------------
// The state
// ---------------------------------------------------------------------------

/// The state of the GML reader as values.
#[verifier::ext_equal]
pub struct GmlModel {
    /// How many elements are open.
    pub depth: int,
    pub in_member: bool,
    pub in_feature: bool,
    /// The feature element's name.
    pub feature_type: Option<Seq<char>>,
    pub geom: GeomState,
    pub in_exterior: bool,
    pub in_interior: bool,
    pub in_bounded_by: bool,
    pub in_envelope: bool,
    pub in_lower: bool,
    pub in_upper: bool,
    /// The text gathered since the last element boundary.
    pub text: Seq<char>,
    /// How many elements were open inside the feature element.
    pub feature_depth: int,
    pub attrs: Map<Seq<char>, AttrView>,
    /// The coordinates of the current line or ring.
    pub points: Seq<PointV>,
    pub exterior: Option<Seq<PointV>>,
    pub interiors: Seq<Seq<PointV>>,
    /// The finished lines of a MultiCurve.
    pub parts: Seq<Seq<PointV>>,
    /// The finished polygons of a MultiSurface.
    pub surfaces: Seq<Seq<Seq<PointV>>>,
    pub srs: Option<Seq<char>>,
    pub srs_taken: bool,
    pub lower: Option<PointV>,
    pub upper: Option<PointV>,
    /// The finished records: each one's geometry and attributes.
    pub records: Seq<(GeomV, Map<Seq<char>, AttrView>)>,
}

/// The state before the first event.
pub open spec fn initial_model() -> GmlModel {
    GmlModel {
        depth: 0,
        in_member: false,
        in_feature: false,
        feature_type: None,
        geom: GeomState::Absent,
        in_exterior: false,
        in_interior: false,
        in_bounded_by: false,
        in_envelope: false,
        in_lower: false,
        in_upper: false,
        text: Seq::empty(),
        feature_depth: 0,
        attrs: Map::empty(),
        points: Seq::empty(),
        exterior: None,
        interiors: Seq::empty(),
        parts: Seq::empty(),
        surfaces: Seq::empty(),
        srs: None,
        srs_taken: false,
        lower: None,
        upper: None,
        records: Seq::empty(),
    }
}

/// Takes the SRS name from a geometry element's attributes, unless one was
/// taken before.
pub open spec fn take_srs(m: GmlModel, attrs: Seq<(Seq<u8>, Seq<u8>)>) -> GmlModel {
    if m.srs_taken {
        m
    } else {
        match last_srs(attrs) {
            Some(v) => GmlModel { srs: Some(spec_utf8_lossy(v)), srs_taken: true, ..m },
            None => m,
        }
    }
}

/// The polygon an exterior and interiors make: the exterior, then every
/// non-empty interior; none without a non-empty exterior.
pub open spec fn polygon_v(exterior: Option<Seq<PointV>>, interiors: Seq<Seq<PointV>>) -> Option<
    Seq<Seq<PointV>>,
> {
    match exterior {
        Some(e) => if e.len() > 0 {
            Some(seq![e] + keep(interiors, |r: Seq<PointV>| r.len() > 0))
        } else {
            None
        },
        None => None,
    }
}

/// The geometries the current feature yields when it ends: its first point,
/// its line (a MultiCurve: every part), its polygon, one polygon per surface
/// of a MultiSurface, or a null geometry when it had no geometry element.
pub open spec fn feature_geoms_v(m: GmlModel) -> Seq<GeomV> {
    match m.geom {
        GeomState::Point => if m.points.len() > 0 {
            seq![GeomV::Point(m.points[0])]
        } else {
            Seq::empty()
        },
        GeomState::LineString | GeomState::Curve => if m.points.len() > 0 {
            seq![GeomV::Polyline(seq![m.points])]
        } else {
            Seq::empty()
        },
        GeomState::MultiCurve => {
            let parts = if m.points.len() > 0 {
                m.parts.push(m.points)
            } else {
                m.parts
            };
            if parts.len() > 0 {
                seq![GeomV::Polyline(parts)]
            } else {
                Seq::empty()
            }
        },
        GeomState::Polygon | GeomState::Surface => match polygon_v(m.exterior, m.interiors) {
            Some(rs) => seq![GeomV::Polygon(rs)],
            None => Seq::empty(),
        },
        GeomState::MultiSurface => {
            let polys = match polygon_v(m.exterior, m.interiors) {
                Some(rs) => m.surfaces.push(rs),
                None => m.surfaces,
            };
            polys.map_values(|rs: Seq<Seq<PointV>>| GeomV::Polygon(rs))
        },
        GeomState::Absent => seq![GeomV::Null],
    }
}

// ---------------------------------------------------------------------------
// Start tags
// ---------------------------------------------------------------------------

/// A start tag inside a feature that names a GML element: geometry kinds,
/// rings; a `GeometryCollection` is an error (`None`).
pub open spec fn geometry_start(m: GmlModel, local: Seq<u8>, attrs: Seq<(Seq<u8>, Seq<u8>)>) -> Option<
    GmlModel,
> {
    if is_tag(local, "Point") {
        Some(take_srs(GmlModel { geom: GeomState::Point, ..m }, attrs))
    } else if is_tag(local, "LineString") {
        Some(
            take_srs(
                if m.geom == GeomState::MultiCurve {
                    m
                } else {
                    GmlModel { geom: GeomState::LineString, ..m }
                },
                attrs,
            ),
        )
    } else if is_tag(local, "Curve") {
        Some(
            take_srs(
                if m.geom == GeomState::MultiCurve {
                    m
                } else {
                    GmlModel { geom: GeomState::Curve, ..m }
                },
                attrs,
            ),
        )
    } else if is_tag(local, "MultiCurve") {
        Some(take_srs(GmlModel { geom: GeomState::MultiCurve, ..m }, attrs))
    } else if is_tag(local, "Polygon") {
        Some(
            take_srs(
                if m.geom == GeomState::MultiSurface {
                    m
                } else {
                    GmlModel { geom: GeomState::Polygon, ..m }
                },
                attrs,
            ),
        )
    } else if is_tag(local, "Surface") {
        Some(
            take_srs(
                if m.geom == GeomState::MultiSurface {
                    m
                } else {
                    GmlModel { geom: GeomState::Surface, ..m }
                },
                attrs,
            ),
        )
    } else if is_tag(local, "MultiSurface") {
        Some(take_srs(GmlModel { geom: GeomState::MultiSurface, ..m }, attrs))
    } else if is_tag(local, "exterior") {
        Some(GmlModel { in_exterior: true, ..m })
    } else if is_tag(local, "interior") {
        Some(GmlModel { in_interior: true, ..m })
    } else if is_tag(local, "GeometryCollection") {
        None
    } else {
        Some(m)
    }
}

/// A start tag opens an element: the envelope and its corners, feature
/// members, the feature element (the first non-GML element inside a member)
/// and, inside a feature, geometry elements. `None` is an error.
pub open spec fn start_step(m: GmlModel, tag: Seq<u8>, attrs: Seq<(Seq<u8>, Seq<u8>)>) -> Option<GmlModel> {
    let local = spec_local_name(tag);
    let g = is_gml_tag(tag);
    let m1 = GmlModel { depth: m.depth + 1, text: Seq::empty(), ..m };
    if g && is_tag(local, "boundedBy") {
        Some(GmlModel { in_bounded_by: true, ..m1 })
    } else if g && is_tag(local, "Envelope") && m.in_bounded_by {
        Some(GmlModel { in_envelope: true, ..m1 })
    } else if g && is_tag(local, "lowerCorner") && m.in_envelope {
        Some(GmlModel { in_lower: true, ..m1 })
    } else if g && is_tag(local, "upperCorner") && m.in_envelope {
        Some(GmlModel { in_upper: true, ..m1 })
    } else if g && is_member_tag(local) {
        Some(GmlModel { in_member: true, ..m1 })
    } else if m.in_member && !m.in_feature && !g {
        Some(
            GmlModel {
                in_feature: true,
                feature_depth: m.depth + 1,
                feature_type: Some(element_name(tag)),
                ..m1
            },
        )
    } else if m.in_feature && g {
        geometry_start(m1, local, attrs)
    } else {
        Some(m1)
    }
}

/// A self-closing tag: a `GeometryCollection` inside a feature is an error
/// (`None`); an empty non-GML element of a feature without geometry sets that
/// attribute to `Null`.
pub open spec fn empty_step(m: GmlModel, tag: Seq<u8>) -> Option<GmlModel> {
    let local = spec_local_name(tag);
    let g = is_gml_tag(tag);
    if g && is_member_tag(local) {
        Some(m)
    } else if m.in_feature && g && is_tag(local, "GeometryCollection") {
        None
    } else if m.in_feature && !g && m.geom == GeomState::Absent {
        Some(GmlModel { attrs: m.attrs.insert(element_name(tag), AttrView::Null), ..m })
    } else {
        Some(m)
    }
}

/// Character data joins the text of the current element.
pub open spec fn text_step(m: GmlModel, text: Seq<char>) -> GmlModel {
    GmlModel { text: m.text + text, ..m }
}

// ---------------------------------------------------------------------------
// End tags
// ---------------------------------------------------------------------------

/// The end of an envelope corner stores its position.
pub open spec fn envelope_end(m: GmlModel, local: Seq<u8>, g: bool) -> GmlModel {
    if g && is_tag(local, "lowerCorner") && m.in_lower {
        GmlModel { lower: pos_v(m.text), in_lower: false, ..m }
    } else if g && is_tag(local, "upperCorner") && m.in_upper {
        GmlModel { upper: pos_v(m.text), in_upper: false, ..m }
    } else if g && is_tag(local, "Envelope") {
        GmlModel { in_envelope: false, ..m }
    } else if g && is_tag(local, "boundedBy") {
        GmlModel { in_bounded_by: false, ..m }
    } else {
        m
    }
}

/// The end of a GML element inside a feature: coordinates join the current
/// list, finished lines and rings are set aside, a MultiSurface's polygon is
/// finished.
pub open spec fn geometry_end(m: GmlModel, local: Seq<u8>) -> GmlModel {
    if is_tag(local, "pos") {
        match pos_v(m.text) {
            Some(p) => GmlModel { points: m.points.push(p), ..m },
            None => m,
        }
    } else if is_tag(local, "posList") {
        match pos_list_v(m.text) {
            Some(ps) => GmlModel { points: m.points + ps, ..m },
            None => m,
        }
    } else if is_tag(local, "coordinates") {
        match coords_v(m.text) {
            Some(ps) => GmlModel { points: m.points + ps, ..m },
            None => m,
        }
    } else if is_tag(local, "LineString") || is_tag(local, "Curve") {
        if m.geom == GeomState::MultiCurve && m.points.len() > 0 {
            GmlModel { parts: m.parts.push(m.points), points: Seq::empty(), ..m }
        } else {
            m
        }
    } else if is_tag(local, "LinearRing") {
        if m.in_exterior {
            GmlModel { exterior: Some(m.points), points: Seq::empty(), ..m }
        } else if m.in_interior {
            GmlModel { interiors: m.interiors.push(m.points), points: Seq::empty(), ..m }
        } else {
            m
        }
    } else if is_tag(local, "exterior") {
        GmlModel { in_exterior: false, ..m }
    } else if is_tag(local, "interior") {
        GmlModel { in_interior: false, ..m }
    } else if is_tag(local, "Polygon") || is_tag(local, "Surface") {
        if m.geom == GeomState::MultiSurface {
            GmlModel {
                exterior: None,
                interiors: Seq::empty(),
                surfaces: match polygon_v(m.exterior, m.interiors) {
                    Some(p) => m.surfaces.push(p),
                    None => m.surfaces,
                },
                ..m
            }
        } else {
            m
        }
    } else {
        m
    }
}

/// The end of an attribute element: a non-blank text becomes the value.
pub open spec fn attribute_end(m: GmlModel, name: Seq<char>) -> GmlModel {
    if trim_seq(m.text).len() > 0 {
        GmlModel { attrs: m.attrs.insert(name, value_v(m.text)), ..m }
    } else {
        m
    }
}

/// The current feature's records are added, numbered on from the last one;
/// `None` when a record number would pass `u32::MAX`.
pub open spec fn finish_feature(m: GmlModel) -> Option<GmlModel> {
    let gs = feature_geoms_v(m);
    if m.records.len() + 1 + gs.len() > u32::MAX {
        None
    } else {
        Some(
            GmlModel {
                records: m.records + gs.map_values(
                    |g: GeomV| (g, m.attrs),
                ),
                ..m
            },
        )
    }
}

/// Everything about the current feature is forgotten.
pub open spec fn reset_feature(m: GmlModel) -> GmlModel {
    GmlModel {
        in_feature: false,
        feature_type: None,
        geom: GeomState::Absent,
        in_exterior: false,
        in_interior: false,
        text: Seq::empty(),
        feature_depth: 0,
        attrs: Map::empty(),
        points: Seq::empty(),
        exterior: None,
        interiors: Seq::empty(),
        parts: Seq::empty(),
        surfaces: Seq::empty(),
        ..m
    }
}

/// An end tag closes an element: envelope corners and geometry parts are
/// finished, an attribute element's text is stored, and the end of a feature
/// member finishes its feature. `None` is an error.
pub open spec fn end_step(m: GmlModel, tag: Seq<u8>) -> Option<GmlModel> {
    let local = spec_local_name(tag);
    let g = is_gml_tag(tag);
    let name = element_name(tag);
    let m1 = envelope_end(m, local, g);
    let m2 = if m1.in_feature && g {
        geometry_end(m1, local)
    } else {
        m1
    };
    let m3 = if m2.in_feature && !g && m2.depth > m2.feature_depth && m2.depth - 1 == m2.feature_depth
        && m2.feature_type != Some(name) {
        attribute_end(m2, name)
    } else {
        m2
    };
    let m4 = if g && is_member_tag(local) {
        let f = if m3.in_feature {
            finish_feature(m3)
        } else {
            Some(m3)
        };
        match f {
            Some(n) => Some(reset_feature(GmlModel { in_member: false, ..n })),
            None => None,
        }
    } else {
        Some(m3)
    };
    match m4 {
        Some(n) => Some(
            GmlModel {
                depth: if n.depth > 0 {
                    n.depth - 1
                } else {
                    0
                },
                text: Seq::empty(),
                ..n
            },
        ),
        None => None,
    }
}

// ---------------------------------------------------------------------------
// Documents
// ---------------------------------------------------------------------------

/// An XML event, as the reader acts on it.
pub enum GmlEvent {
    /// A start tag: its qualified name, and its attributes' keys and values.
    Start(Vec<u8>, Vec<(Vec<u8>, Vec<u8>)>),
    /// A self-closing tag: its qualified name.
    Empty(Vec<u8>),
    /// Character data, with escapes resolved.
    Text(String),
    /// An end tag: its qualified name.
    End(Vec<u8>),
    /// The XML layer failed, with its message.
    XmlError(String),
}

/// An XML event as values: names and attributes as bytes, text as
/// characters.
pub enum GmlEventV {
    Start(Seq<u8>, Seq<(Seq<u8>, Seq<u8>)>),
    Empty(Seq<u8>),
    Text(Seq<char>),
    End(Seq<u8>),
    XmlError(Seq<char>),
}

impl View for GmlEvent {
    type V = GmlEventV;

    open spec fn view(&self) -> GmlEventV {
        match self {
            GmlEvent::Start(t, a) => GmlEventV::Start(t@, attr_pairs(a@)),
            GmlEvent::Empty(t) => GmlEventV::Empty(t@),
            GmlEvent::Text(s) => GmlEventV::Text(s@),
            GmlEvent::End(t) => GmlEventV::End(t@),
            GmlEvent::XmlError(s) => GmlEventV::XmlError(s@),
        }
    }
}

/// The values of a list of events.
pub open spec fn events_v(evs: Seq<GmlEvent>) -> Seq<GmlEventV> {
    evs.map_values(|e: GmlEvent| e@)
}

/// The keys and values of attributes, as byte strings.
pub open spec fn attr_pairs(a: Seq<(Vec<u8>, Vec<u8>)>) -> Seq<(Seq<u8>, Seq<u8>)> {
    a.map_values(|x: (Vec<u8>, Vec<u8>)| (x.0@, x.1@))
}

/// Where reading events leads: a state, an invalid document, or an error of
/// the XML layer with its message.
pub enum GmlRun {
    Done(GmlModel),
    Invalid(Refusal),
    Xml(Seq<char>),
}

/// Why a document is invalid: a `GeometryCollection` inside a feature, or
/// content (coordinates, the record count) that cannot be read.
pub enum Refusal {
    GeometryCollection,
    Content,
}

/// What one event does.
pub open spec fn event_step(m: GmlModel, e: GmlEventV) -> GmlRun {
    match e {
        GmlEventV::Start(t, a) => match start_step(m, t, a) {
            Some(n) => GmlRun::Done(n),
            None => GmlRun::Invalid(Refusal::GeometryCollection),
        },
        GmlEventV::Empty(t) => match empty_step(m, t) {
            Some(n) => GmlRun::Done(n),
            None => GmlRun::Invalid(Refusal::GeometryCollection),
        },
        GmlEventV::Text(s) => GmlRun::Done(text_step(m, s)),
        GmlEventV::End(t) => match end_step(m, t) {
            Some(n) => GmlRun::Done(n),
            None => GmlRun::Invalid(Refusal::Content),
        },
        GmlEventV::XmlError(s) => GmlRun::Xml(s),
    }
}

/// Where a list of events leads from state `m`: event by event, stopping at
/// the first error.
pub open spec fn run_events(m: GmlModel, evs: Seq<GmlEventV>) -> GmlRun
    decreases evs.len(),
{
    if evs.len() == 0 {
        GmlRun::Done(m)
    } else {
        match event_step(m, evs[0]) {
            GmlRun::Done(n) => run_events(n, evs.drop_first()),
            other => other,
        }
    }
}

/// The envelope a final state holds, when both corners parsed: its lower
/// and upper corners.
pub open spec fn envelope_of(m: GmlModel) -> Option<(PointV, PointV)> {
    match (m.lower, m.upper) {
        (Some(l), Some(u)) => Some((l, u)),
        _ => None,
    }
}

} // verus!
