//! Geometry model shared by every reader.
use crate::number::Number;
use crate::parsers::shp_parser::ShapeType;
use vstd::prelude::*;
use vstd::slice::slice_subrange;

verus! {

/// A 2D point with x (typically longitude) and y (typically latitude).
#[derive(Debug, PartialEq)]
pub struct Point {
    /// X coordinate.
    pub x: Number,
    /// Y coordinate.
    pub y: Number,
}

impl Clone for Point {
    fn clone(&self) -> (r: Self)
        ensures
            r == *self,
    {
        Point { x: self.x.clone(), y: self.y.clone() }
    }
}

/// Copies of the points of `v`, in order.
pub fn clone_points(v: &Vec<Point>) -> (r: Vec<Point>)
    ensures
        r@ == v@,
{
    let mut out: Vec<Point> = Vec::new();
    let mut i: usize = 0;
    let n = v.len();
    while i < n
        invariant
            n == v@.len(),
            i <= n,
            out@ == v@.take(i as int),
        decreases n - i,
    {
        out.push(v[i].clone());
        i = i + 1;
        assert(out@ =~= v@.take(i as int));
    }
    assert(v@.take(n as int) =~= v@);
    out
}

/// The points of each part, as sequences.
pub open spec fn parts_view(parts: Seq<Vec<Point>>) -> Seq<Seq<Point>> {
    parts.map_values(|p: Vec<Point>| p@)
}

/// An ordered set of vertices forming one or more line segments (parts).
#[derive(Debug, PartialEq)]
pub struct Polyline {
    /// Each inner `Vec<Point>` is one part of the polyline.
    pub parts: Vec<Vec<Point>>,
}

impl View for Polyline {
    type V = Seq<Seq<Point>>;

    open spec fn view(&self) -> Seq<Seq<Point>> {
        parts_view(self.parts@)
    }
}

/// Total number of points over all parts.
pub open spec fn total_points(parts: Seq<Seq<Point>>) -> int
    decreases parts.len(),
{
    if parts.len() == 0 {
        0
    } else {
        total_points(parts.drop_last()) + parts.last().len()
    }
}

impl Polyline {
    /// Returns the number of parts in this polyline.
    pub fn num_parts(&self) -> (r: usize)
        ensures
            r == self@.len(),
    {
        self.parts.len()
    }

    /// Returns the total number of vertices across all parts.
    pub fn num_points(&self) -> (r: usize)
        requires
            total_points(self@) <= usize::MAX,
        ensures
            r == total_points(self@),
    {
        let mut sum: usize = 0;
        let mut i: usize = 0;
        let n = self.parts.len();
        while i < n
            invariant
                n == self.parts@.len(),
                i <= n,
                sum == total_points(self@.take(i as int)),
                total_points(self@) <= usize::MAX,
            decreases n - i,
        {
            proof {
                assert(self@.take(i + 1).drop_last() =~= self@.take(i as int));
                lemma_total_points_prefix(self@, i + 1);
            }
            sum = sum + self.parts[i].len();
            i = i + 1;
        }
        assert(self@.take(n as int) =~= self@);
        sum
    }
}

/// Totals over prefixes never exceed the whole total.
pub proof fn lemma_total_points_prefix(parts: Seq<Seq<Point>>, k: int)
    requires
        0 <= k <= parts.len(),
    ensures
        total_points(parts.take(k)) <= total_points(parts),
    decreases parts.len() - k,
{
    if k < parts.len() {
        lemma_total_points_prefix(parts, k + 1);
        assert(parts.take(k + 1).drop_last() =~= parts.take(k));
    } else {
        assert(parts.take(k) =~= parts);
    }
}

/// A closed ring of vertices forming part of a polygon (exterior or hole).
#[derive(Debug, PartialEq)]
pub struct Ring {
    /// Vertices of the ring; first and last point should be identical.
    pub points: Vec<Point>,
}

impl Clone for Ring {
    fn clone(&self) -> (r: Self)
        ensures
            r.points@ == self.points@,
    {
        Ring { points: clone_points(&self.points) }
    }
}

/// The points of each ring, as sequences.
pub open spec fn rings_view(rings: Seq<Ring>) -> Seq<Seq<Point>> {
    rings.map_values(|r: Ring| r.points@)
}

/// A polygon consisting of one exterior ring and zero or more interior holes.
#[derive(Debug, PartialEq)]
pub struct Polygon {
    /// `rings[0]` is the exterior ring; `rings[1..]` are holes.
    pub rings: Vec<Ring>,
}

impl View for Polygon {
    type V = Seq<Seq<Point>>;

    open spec fn view(&self) -> Seq<Seq<Point>> {
        rings_view(self.rings@)
    }
}

impl Polygon {
    /// Returns the exterior ring.
    pub fn exterior(&self) -> (r: &Ring)
        requires
            self.rings@.len() > 0,
        ensures
            *r == self.rings@[0],
    {
        &self.rings[0]
    }

    /// Returns the interior hole rings (empty if none).
    pub fn holes(&self) -> (r: &[Ring])
        ensures
            self.rings@.len() > 1 ==> r@ == self.rings@.skip(1),
            self.rings@.len() <= 1 ==> r@.len() == 0,
    {
        if self.rings.len() > 1 {
            slice_subrange(self.rings.as_slice(), 1, self.rings.len())
        } else {
            slice_subrange(self.rings.as_slice(), 0, 0)
        }
    }
}

/// A set of unconnected points.
#[derive(Debug, PartialEq)]
pub struct MultiPoint {
    /// The individual points in this collection.
    pub points: Vec<Point>,
}

/// A 3D point with x, y, z coordinates and an optional measure value.
#[derive(Debug, PartialEq)]
pub struct PointZ {
    pub x: Number,
    pub y: Number,
    pub z: Number,
    pub m: Option<Number>,
}

/// A polyline with Z (elevation) coordinates.
#[derive(Debug, PartialEq)]
pub struct PolylineZ {
    pub parts: Vec<Vec<PointZ>>,
}

impl View for PolylineZ {
    type V = Seq<Seq<PointZ>>;

    open spec fn view(&self) -> Seq<Seq<PointZ>> {
        self.parts@.map_values(|p: Vec<PointZ>| p@)
    }
}

/// A polygon with Z (elevation) coordinates.
#[derive(Debug, PartialEq)]
pub struct PolygonZ {
    pub rings: Vec<Vec<PointZ>>,
}

impl View for PolygonZ {
    type V = Seq<Seq<PointZ>>;

    open spec fn view(&self) -> Seq<Seq<PointZ>> {
        self.rings@.map_values(|p: Vec<PointZ>| p@)
    }
}

/// A 2D point with an associated measure (M) value.
#[derive(Debug, PartialEq)]
pub struct PointM {
    pub x: Number,
    pub y: Number,
    pub m: Number,
}

/// A polyline with measure (M) values.
#[derive(Debug, PartialEq)]
pub struct PolylineM {
    pub parts: Vec<Vec<PointM>>,
}

impl View for PolylineM {
    type V = Seq<Seq<PointM>>;

    open spec fn view(&self) -> Seq<Seq<PointM>> {
        self.parts@.map_values(|p: Vec<PointM>| p@)
    }
}

/// A polygon with measure (M) values.
#[derive(Debug, PartialEq)]
pub struct PolygonM {
    pub rings: Vec<Vec<PointM>>,
}

impl View for PolygonM {
    type V = Seq<Seq<PointM>>;

    open spec fn view(&self) -> Seq<Seq<PointM>> {
        self.rings@.map_values(|p: Vec<PointM>| p@)
    }
}

impl Point {
    /// The ESRI shape type of this kind of geometry.
    pub fn shape_type(&self) -> (r: ShapeType)
        ensures
            r == ShapeType::Point,
    {
        ShapeType::Point
    }
}

impl Polyline {
    /// The ESRI shape type of this kind of geometry.
    pub fn shape_type(&self) -> (r: ShapeType)
        ensures
            r == ShapeType::Polyline,
    {
        ShapeType::Polyline
    }
}

impl Polygon {
    /// The ESRI shape type of this kind of geometry.
    pub fn shape_type(&self) -> (r: ShapeType)
        ensures
            r == ShapeType::Polygon,
    {
        ShapeType::Polygon
    }
}

impl MultiPoint {
    /// The ESRI shape type of this kind of geometry.
    pub fn shape_type(&self) -> (r: ShapeType)
        ensures
            r == ShapeType::MultiPoint,
    {
        ShapeType::MultiPoint
    }
}

impl PointZ {
    /// The ESRI shape type of this kind of geometry.
    pub fn shape_type(&self) -> (r: ShapeType)
        ensures
            r == ShapeType::PointZ,
    {
        ShapeType::PointZ
    }
}

impl PolylineZ {
    /// The ESRI shape type of this kind of geometry.
    pub fn shape_type(&self) -> (r: ShapeType)
        ensures
            r == ShapeType::PolylineZ,
    {
        ShapeType::PolylineZ
    }
}

impl PolygonZ {
    /// The ESRI shape type of this kind of geometry.
    pub fn shape_type(&self) -> (r: ShapeType)
        ensures
            r == ShapeType::PolygonZ,
    {
        ShapeType::PolygonZ
    }
}

impl PointM {
    /// The ESRI shape type of this kind of geometry.
    pub fn shape_type(&self) -> (r: ShapeType)
        ensures
            r == ShapeType::PointM,
    {
        ShapeType::PointM
    }
}

impl PolylineM {
    /// The ESRI shape type of this kind of geometry.
    pub fn shape_type(&self) -> (r: ShapeType)
        ensures
            r == ShapeType::PolylineM,
    {
        ShapeType::PolylineM
    }
}

impl PolygonM {
    /// The ESRI shape type of this kind of geometry.
    pub fn shape_type(&self) -> (r: ShapeType)
        ensures
            r == ShapeType::PolygonM,
    {
        ShapeType::PolygonM
    }
}

/// Algebraic data type representing the supported geometry variants.
#[derive(Debug, PartialEq)]
pub enum Geometry {
    /// Null shape (no geometry).
    Null,
    /// A 2D point.
    Point(Point),
    /// A 2D polyline with one or more parts.
    Polyline(Polyline),
    /// A 2D polygon with exterior and optional hole rings.
    Polygon(Polygon),
    /// A collection of 2D points.
    MultiPoint(MultiPoint),
    /// A 3D point with Z coordinate.
    PointZ(PointZ),
    /// A 3D polyline with Z coordinates.
    PolylineZ(PolylineZ),
    /// A 3D polygon with Z coordinates.
    PolygonZ(PolygonZ),
    /// A 2D point with a measure value.
    PointM(PointM),
    /// A 2D polyline with measure values.
    PolylineM(PolylineM),
    /// A 2D polygon with measure values.
    PolygonM(PolygonM),
}

/// A geometry as a mathematical value.
pub enum GeometryView {
    Null,
    Point(Point),
    Polyline(Seq<Seq<Point>>),
    Polygon(Seq<Seq<Point>>),
    MultiPoint(Seq<Point>),
    PointZ(PointZ),
    PolylineZ(Seq<Seq<PointZ>>),
    PolygonZ(Seq<Seq<PointZ>>),
    PointM(PointM),
    PolylineM(Seq<Seq<PointM>>),
    PolygonM(Seq<Seq<PointM>>),
}

impl View for Geometry {
    type V = GeometryView;

    open spec fn view(&self) -> GeometryView {
        match self {
            Geometry::Null => GeometryView::Null,
            Geometry::Point(p) => GeometryView::Point(*p),
            Geometry::Polyline(p) => GeometryView::Polyline(p@),
            Geometry::Polygon(p) => GeometryView::Polygon(p@),
            Geometry::MultiPoint(m) => GeometryView::MultiPoint(m.points@),
            Geometry::PointZ(p) => GeometryView::PointZ(*p),
            Geometry::PolylineZ(p) => GeometryView::PolylineZ(p@),
            Geometry::PolygonZ(p) => GeometryView::PolygonZ(p@),
            Geometry::PointM(p) => GeometryView::PointM(*p),
            Geometry::PolylineM(p) => GeometryView::PolylineM(p@),
            Geometry::PolygonM(p) => GeometryView::PolygonM(p@),
        }
    }
}

impl Geometry {
    /// The ESRI shape type of each variant.
    pub open spec fn spec_shape_type(&self) -> ShapeType {
        match self {
            Geometry::Null => ShapeType::Null,
            Geometry::Point(_) => ShapeType::Point,
            Geometry::Polyline(_) => ShapeType::Polyline,
            Geometry::Polygon(_) => ShapeType::Polygon,
            Geometry::MultiPoint(_) => ShapeType::MultiPoint,
            Geometry::PointZ(_) => ShapeType::PointZ,
            Geometry::PolylineZ(_) => ShapeType::PolylineZ,
            Geometry::PolygonZ(_) => ShapeType::PolygonZ,
            Geometry::PointM(_) => ShapeType::PointM,
            Geometry::PolylineM(_) => ShapeType::PolylineM,
            Geometry::PolygonM(_) => ShapeType::PolygonM,
        }
    }

    /// Returns the ESRI shape type of the contained geometry.
    pub fn shape_type(&self) -> (r: ShapeType)
        ensures
            r == self.spec_shape_type(),
    {
        match self {
            Geometry::Null => ShapeType::Null,
            Geometry::Point(_) => ShapeType::Point,
            Geometry::Polyline(_) => ShapeType::Polyline,
            Geometry::Polygon(_) => ShapeType::Polygon,
            Geometry::MultiPoint(_) => ShapeType::MultiPoint,
            Geometry::PointZ(_) => ShapeType::PointZ,
            Geometry::PolylineZ(_) => ShapeType::PolylineZ,
            Geometry::PolygonZ(_) => ShapeType::PolygonZ,
            Geometry::PointM(_) => ShapeType::PointM,
            Geometry::PolylineM(_) => ShapeType::PolylineM,
            Geometry::PolygonM(_) => ShapeType::PolygonM,
        }
    }

    /// Returns the point if this is a `Point` geometry.
    pub fn as_point(&self) -> (r: Option<&Point>)
        ensures
            self is Point <==> r is Some,
            r matches Some(p) ==> self matches Geometry::Point(q) && *p == q,
    {
        match self {
            Geometry::Point(p) => Some(p),
            _ => None,
        }
    }

    /// Returns the polyline if this is a `Polyline` geometry.
    pub fn as_polyline(&self) -> (r: Option<&Polyline>)
        ensures
            self is Polyline <==> r is Some,
            r matches Some(p) ==> self matches Geometry::Polyline(q) && *p == q,
    {
        match self {
            Geometry::Polyline(p) => Some(p),
            _ => None,
        }
    }

    /// Returns the polygon if this is a `Polygon` geometry.
    pub fn as_polygon(&self) -> (r: Option<&Polygon>)
        ensures
            self is Polygon <==> r is Some,
            r matches Some(p) ==> self matches Geometry::Polygon(q) && *p == q,
    {
        match self {
            Geometry::Polygon(p) => Some(p),
            _ => None,
        }
    }

    /// Whether this is the null geometry.
    pub fn is_null(&self) -> (r: bool)
        ensures
            r == self is Null,
    {
        match self {
            Geometry::Null => true,
            _ => false,
        }
    }
}

} // verus!
