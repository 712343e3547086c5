//! The .shp main file and its .shx index.
use crate::binary_reader::{u32_be_at, i32_be_at, i32_from_be, i32_from_le, i32_le_at, u64_le_at, BinaryReader};
use crate::error::ShapefileError;
use crate::models::bbox::BoundingBox;
use crate::models::geometry::{
    clone_points, parts_view, rings_view, Geometry, GeometryView, MultiPoint, Point, Polygon, Polyline, Ring,
};
use crate::number::Number;
use vstd::prelude::*;

verus! {

/// ESRI shape type codes as defined in the Shapefile specification.
#[derive(Debug, Clone, Copy, PartialEq, Eq, Hash)]
pub enum ShapeType {
    /// Null shape (no geometry).
    Null,
    /// Single 2D point.
    Point,
    /// Ordered set of 2D vertices forming line segments.
    Polyline,
    /// One or more closed rings forming a polygon.
    Polygon,
    /// Set of unconnected 2D points.
    MultiPoint,
    /// Single 3D point with Z and optional M values.
    PointZ,
    /// Polyline with Z coordinates.
    PolylineZ,
    /// Polygon with Z coordinates.
    PolygonZ,
    /// Single 2D point with a measure (M) value.
    PointM,
    /// Polyline with measure (M) values.
    PolylineM,
    /// Polygon with measure (M) values.
    PolygonM,
    /// Complex 3D surface patches.
    MultiPatch,
}

/// The shape type with the given code, if the specification defines one.
pub open spec fn shape_type_of(code: int) -> Option<ShapeType> {
    if code == 0 {
        Some(ShapeType::Null)
    } else if code == 1 {
        Some(ShapeType::Point)
    } else if code == 3 {
        Some(ShapeType::Polyline)
    } else if code == 5 {
        Some(ShapeType::Polygon)
    } else if code == 8 {
        Some(ShapeType::MultiPoint)
    } else if code == 11 {
        Some(ShapeType::PointZ)
    } else if code == 13 {
        Some(ShapeType::PolylineZ)
    } else if code == 15 {
        Some(ShapeType::PolygonZ)
    } else if code == 21 {
        Some(ShapeType::PointM)
    } else if code == 23 {
        Some(ShapeType::PolylineM)
    } else if code == 25 {
        Some(ShapeType::PolygonM)
    } else if code == 31 {
        Some(ShapeType::MultiPatch)
    } else {
        None
    }
}

impl ShapeType {
    /// The numeric code of each shape type.
    pub open spec fn spec_code(self) -> int {
        match self {
            ShapeType::Null => 0,
            ShapeType::Point => 1,
            ShapeType::Polyline => 3,
            ShapeType::Polygon => 5,
            ShapeType::MultiPoint => 8,
            ShapeType::PointZ => 11,
            ShapeType::PolylineZ => 13,
            ShapeType::PolygonZ => 15,
            ShapeType::PointM => 21,
            ShapeType::PolylineM => 23,
            ShapeType::PolygonM => 25,
            ShapeType::MultiPatch => 31,
        }
    }

    /// The numeric code of this shape type.
    pub fn code(&self) -> (r: i32)
        ensures
            r == self.spec_code(),
    {
        match self {
            ShapeType::Null => 0,
            ShapeType::Point => 1,
            ShapeType::Polyline => 3,
            ShapeType::Polygon => 5,
            ShapeType::MultiPoint => 8,
            ShapeType::PointZ => 11,
            ShapeType::PolylineZ => 13,
            ShapeType::PolygonZ => 15,
            ShapeType::PointM => 21,
            ShapeType::PolylineM => 23,
            ShapeType::PolygonM => 25,
            ShapeType::MultiPatch => 31,
        }
    }

    /// The shape type with code `value`, or `UnsupportedShapeType(value)`.
    pub fn try_from(value: i32) -> (r: Result<ShapeType, ShapefileError>)
        ensures
            shape_type_of(value as int) matches Some(t) ==> r == Ok::<ShapeType, ShapefileError>(t),
            shape_type_of(value as int) is None ==> r == Err::<ShapeType, ShapefileError>(
                ShapefileError::UnsupportedShapeType(value),
            ),
    {
        match value {
            0 => Ok(ShapeType::Null),
            1 => Ok(ShapeType::Point),
            3 => Ok(ShapeType::Polyline),
            5 => Ok(ShapeType::Polygon),
            8 => Ok(ShapeType::MultiPoint),
            11 => Ok(ShapeType::PointZ),
            13 => Ok(ShapeType::PolylineZ),
            15 => Ok(ShapeType::PolygonZ),
            21 => Ok(ShapeType::PointM),
            23 => Ok(ShapeType::PolylineM),
            25 => Ok(ShapeType::PolygonM),
            31 => Ok(ShapeType::MultiPatch),
            n => Err(ShapefileError::UnsupportedShapeType(n)),
        }
    }
}

/// Codes are inverse to shape types.
pub proof fn lemma_shape_type_code_roundtrip(t: ShapeType)
    ensures
        shape_type_of(t.spec_code()) == Some(t),
{
}

// ---------------------------------------------------------------------------
// The record format
// ---------------------------------------------------------------------------

/// A signed 32-bit count or index converted with `as usize`.
pub open spec fn usize_of(v: int) -> int {
    ((v as i32) as usize) as int
}

/// The point whose two little-endian binary64 coordinates start at `i`.
pub open spec fn point_at(s: Seq<u8>, i: int) -> Point {
    Point { x: Number::Bits(u64_le_at(s, i) as u64), y: Number::Bits(u64_le_at(s, i + 8) as u64) }
}

/// `n` consecutive points starting at `i`.
pub open spec fn points_at(s: Seq<u8>, i: int, n: int) -> Seq<Point> {
    Seq::new(n as nat, |k: int| point_at(s, i + 16 * k))
}

/// `n` consecutive part-start indices starting at `i`.
pub open spec fn starts_at(s: Seq<u8>, i: int, n: int) -> Seq<int> {
    Seq::new(n as nat, |k: int| usize_of(i32_le_at(s, i + 4 * k)))
}

/// The part starts can split `npts` points: at least one part, starts in
/// non-decreasing order, the last one within the points.
pub open spec fn parts_ok(starts: Seq<int>, npts: int) -> bool {
    &&& starts.len() >= 1
    &&& forall|k: int| 0 <= k < starts.len() - 1 ==> #[trigger] starts[k] <= starts[k + 1]
    &&& starts.last() <= npts
}

/// Part `k` runs from its start to the next part's start (the last part to
/// the end of the points).
pub open spec fn part_end(starts: Seq<int>, k: int, npts: int) -> int {
    if k + 1 < starts.len() {
        starts[k + 1]
    } else {
        npts
    }
}

/// The points split into parts at the given starts.
pub open spec fn split_parts(starts: Seq<int>, pts: Seq<Point>) -> Seq<Seq<Point>> {
    Seq::new(
        starts.len(),
        |k: int| pts.subrange(starts[k], part_end(starts, k, pts.len() as int)),
    )
}

/// What reading one record at offset `p` yields.
pub enum RecordOutcome {
    /// A geometry, and the offset right after the record.
    Parsed(GeometryView, int),
    /// The data ends inside the record.
    Truncated,
    /// The record's shape type code is not one the reader decodes.
    Unsupported(int),
    /// A poly record whose part starts cannot split its points; reading it
    /// panics.
    Malformed,
}

/// The layout of a record: an 8-byte header (number and length, big-endian),
/// the shape type code (`i32`, little-endian), then the shape's content.
pub open spec fn record_at(s: Seq<u8>, p: int) -> RecordOutcome {
    if p + 12 > s.len() {
        RecordOutcome::Truncated
    } else {
        let t = i32_le_at(s, p + 8);
        if t == 0 {
            RecordOutcome::Parsed(GeometryView::Null, p + 12)
        } else if t == 1 {
            if p + 28 > s.len() {
                RecordOutcome::Truncated
            } else {
                RecordOutcome::Parsed(GeometryView::Point(point_at(s, p + 12)), p + 28)
            }
        } else if t == 3 || t == 5 {
            if p + 52 > s.len() {
                RecordOutcome::Truncated
            } else {
                let np = usize_of(i32_le_at(s, p + 44));
                let npts = usize_of(i32_le_at(s, p + 48));
                let q = p + 52 + 4 * np;
                let e = q + 16 * npts;
                if e > s.len() {
                    RecordOutcome::Truncated
                } else {
                    let starts = starts_at(s, p + 52, np);
                    if !parts_ok(starts, npts) {
                        RecordOutcome::Malformed
                    } else {
                        let parts = split_parts(starts, points_at(s, q, npts));
                        if t == 3 {
                            RecordOutcome::Parsed(GeometryView::Polyline(parts), e)
                        } else {
                            RecordOutcome::Parsed(GeometryView::Polygon(parts), e)
                        }
                    }
                }
            }
        } else if t == 8 {
            if p + 48 > s.len() {
                RecordOutcome::Truncated
            } else {
                let n = usize_of(i32_le_at(s, p + 44));
                let e = p + 48 + 16 * n;
                if e > s.len() {
                    RecordOutcome::Truncated
                } else {
                    RecordOutcome::Parsed(GeometryView::MultiPoint(points_at(s, p + 48, n)), e)
                }
            }
        } else {
            RecordOutcome::Unsupported(t)
        }
    }
}

/// The record number stored in the header of the record at `p`: the first
/// four bytes, big-endian, read as unsigned.
pub open spec fn stored_record_number(s: Seq<u8>, p: int) -> u32 {
    u32_be_at(s, p) as u32
}

/// Reading the record at `p` does not panic.
pub open spec fn record_ok(s: Seq<u8>, p: int) -> bool {
    !(record_at(s, p) is Malformed)
}

/// The offset where reading continues after the record at `p`.
pub open spec fn next_offset(s: Seq<u8>, p: int) -> int {
    match record_at(s, p) {
        RecordOutcome::Parsed(_, e) => e,
        RecordOutcome::Unsupported(_) => p + 12,
        _ => s.len() as int,
    }
}

/// The records from offset `p` up to the end of the data, as sequential
/// reading yields them.
pub open spec fn records_from(s: Seq<u8>, p: int) -> Seq<RecordOutcome>
    decreases s.len() - p,
{
    if p < 0 || p >= s.len() {
        Seq::empty()
    } else {
        let r = record_at(s, p);
        match r {
            RecordOutcome::Parsed(_, e) => if e > p {
                seq![r] + records_from(s, e)
            } else {
                seq![r]
            },
            RecordOutcome::Unsupported(_) => seq![r] + records_from(s, p + 12),
            _ => seq![r],
        }
    }
}

/// A record that parses ends after its 12-byte header and within the data.
pub proof fn lemma_record_end(s: Seq<u8>, p: int)
    requires
        0 <= p,
    ensures
        record_at(s, p) matches RecordOutcome::Parsed(_, e) ==> p + 12 <= e <= s.len(),
        record_at(s, p) is Unsupported ==> p + 12 <= s.len(),
{
}

/// Sequential reading from `p` yields the record at `p`, then the records
/// from where that one ends.
pub proof fn lemma_records_from_unfold(s: Seq<u8>, p: int)
    requires
        0 <= p < s.len(),
        record_ok(s, p),
    ensures
        records_from(s, p) == seq![record_at(s, p)] + records_from(s, next_offset(s, p)),
{
    lemma_record_end(s, p);
    if record_at(s, p) is Truncated {
        assert(records_from(s, s.len() as int) =~= Seq::<RecordOutcome>::empty());
        assert(seq![record_at(s, p)] + Seq::<RecordOutcome>::empty() =~= seq![record_at(s, p)]);
    }
}

/// Reading every record from offset `p` to the end of the data does not panic.
pub open spec fn records_ok_from(s: Seq<u8>, p: int) -> bool {
    forall|k: int| 0 <= k < records_from(s, p).len() ==> !(#[trigger] records_from(s, p)[k] is Malformed)
}

/// A result of reading one record agrees with the record's outcome.
pub open spec fn record_result_matches(r: Result<Geometry, ShapefileError>, o: RecordOutcome) -> bool {
    match o {
        RecordOutcome::Parsed(g, _) => r matches Ok(geom) && geom@ == g,
        RecordOutcome::Truncated => r matches Err(e) && e is CorruptedFile,
        RecordOutcome::Unsupported(t) => r == Err::<Geometry, ShapefileError>(
            ShapefileError::UnsupportedShapeType(t as i32),
        ),
        RecordOutcome::Malformed => false,
    }
}

// ---------------------------------------------------------------------------
// The header
// ---------------------------------------------------------------------------

pub struct ShpHeader {
    pub shape_type: ShapeType,
    pub file_length: i32,
    pub bbox: BoundingBox,
}

/// What reading the 100-byte main-file header at offset `p` yields.
pub enum HeaderOutcome {
    /// Shape type, file length (16-bit words) and the four x/y bounds' bits.
    Parsed(ShapeType, int, Seq<int>),
    Truncated,
    InvalidFileCode(int),
    InvalidVersion(int),
    Unsupported(int),
}

/// The header layout: file code 9994 (big-endian), 20 unused bytes, file
/// length (big-endian), version 1000 and shape type (little-endian), then
/// x_min, y_min, x_max, y_max, z_min, z_max, m_min, m_max as binary64.
pub open spec fn header_at(s: Seq<u8>, p: int) -> HeaderOutcome {
    if p + 4 > s.len() {
        HeaderOutcome::Truncated
    } else if i32_be_at(s, p) != 9994 {
        HeaderOutcome::InvalidFileCode(i32_be_at(s, p))
    } else if p + 32 > s.len() {
        HeaderOutcome::Truncated
    } else if i32_le_at(s, p + 28) != 1000 {
        HeaderOutcome::InvalidVersion(i32_le_at(s, p + 28))
    } else if p + 36 > s.len() {
        HeaderOutcome::Truncated
    } else if shape_type_of(i32_le_at(s, p + 32)) is None {
        HeaderOutcome::Unsupported(i32_le_at(s, p + 32))
    } else if p + 100 > s.len() {
        HeaderOutcome::Truncated
    } else {
        HeaderOutcome::Parsed(
            shape_type_of(i32_le_at(s, p + 32)).unwrap(),
            i32_be_at(s, p + 24),
            seq![
                u64_le_at(s, p + 36),
                u64_le_at(s, p + 44),
                u64_le_at(s, p + 52),
                u64_le_at(s, p + 60),
            ],
        )
    }
}

// ---------------------------------------------------------------------------
// The index file
// ---------------------------------------------------------------------------

pub struct ShxIndex {
    /// (offset_bytes, content_length_bytes) list
    pub entries: Vec<(u64, u32)>,
}

/// What reading an index file yields.
pub enum ShxOutcome {
    /// The (offset, content length) pairs, in bytes.
    Parsed(Seq<(u64, u32)>),
    Truncated,
    InvalidFileCode(int),
    /// An arithmetic overflow panics: a file length under 50 words, or a
    /// negative offset or content length in an entry.
    Overflows,
}

/// The file length (in 16-bit words) declared by an index header.
pub open spec fn shx_file_length(s: Seq<u8>) -> int {
    i32_be_at(s, 24)
}

/// The number of entries an index with file length `fl` words declares.
pub open spec fn shx_entry_count(fl: int) -> int {
    (2 * fl - 100) / 8
}

/// The entry `k` of an index, converted to bytes.
pub open spec fn shx_entry(s: Seq<u8>, k: int) -> (u64, u32) {
    ((2 * i32_be_at(s, 100 + 8 * k)) as u64, (2 * i32_be_at(s, 104 + 8 * k)) as u32)
}

/// The entry `k` can be read and one of its values is negative.
pub open spec fn shx_entry_overflows(s: Seq<u8>, k: int) -> bool {
    108 + 8 * k <= s.len() && (i32_be_at(s, 100 + 8 * k) < 0 || i32_be_at(s, 104 + 8 * k) < 0)
}

/// The index layout: a 100-byte header like the main file's, then one
/// 8-byte entry per record: offset and content length, both big-endian and
/// counted in 16-bit words.
pub open spec fn shx_at(s: Seq<u8>) -> ShxOutcome {
    if s.len() < 4 {
        ShxOutcome::Truncated
    } else if i32_be_at(s, 0) != 9994 {
        ShxOutcome::InvalidFileCode(i32_be_at(s, 0))
    } else if s.len() < 100 {
        ShxOutcome::Truncated
    } else if shx_file_length(s) < 50 {
        ShxOutcome::Overflows
    } else {
        let n = shx_entry_count(shx_file_length(s));
        if exists|k: int| 0 <= k < n && #[trigger] shx_entry_overflows(s, k) {
            ShxOutcome::Overflows
        } else if 100 + 8 * n > s.len() {
            ShxOutcome::Truncated
        } else {
            ShxOutcome::Parsed(Seq::new(n as nat, |k: int| shx_entry(s, k)))
        }
    }
}

// ---------------------------------------------------------------------------
// The parser
// ---------------------------------------------------------------------------

/// The point starts as integers.
pub open spec fn starts_view(v: Seq<usize>) -> Seq<int> {
    v.map_values(|x: usize| x as int)
}

/// In non-decreasing starts, every start is at most the last one.
proof fn lemma_starts_below_last(sv: Seq<int>, j: int)
    requires
        0 <= j < sv.len(),
        forall|k: int| 0 <= k < sv.len() - 1 ==> #[trigger] sv[k] <= sv[k + 1],
    ensures
        sv[j] <= sv.last(),
    decreases sv.len() - j,
{
    if j < sv.len() - 1 {
        lemma_starts_below_last(sv, j + 1);
        assert(sv[j] <= sv[j + 1]);
    }
}

/// A signed count or index converted with `as usize`.
fn to_usize(v: i32) -> (r: usize)
    ensures
        r as int == usize_of(v as int),
{
    #[verifier::truncate]
    (v as usize)
}

proof fn lemma_parts_view_push(s: Seq<Vec<Point>>, v: Vec<Point>)
    ensures
        parts_view(s.push(v)) == parts_view(s).push(v@),
{
    assert(parts_view(s.push(v)) =~= parts_view(s).push(v@));
}

proof fn lemma_rings_view_push(s: Seq<Ring>, v: Ring)
    ensures
        rings_view(s.push(v)) == rings_view(s).push(v.points@),
{
    assert(rings_view(s.push(v)) =~= rings_view(s).push(v.points@));
}

/// Copies of `v[a..b]`.
fn copy_points(v: &Vec<Point>, a: usize, b: usize) -> (r: Vec<Point>)
    requires
        a <= b <= v@.len(),
    ensures
        r@ == v@.subrange(a as int, b as int),
{
    let mut out: Vec<Point> = Vec::new();
    let mut i = a;
    while i < b
        invariant
            a <= i <= b <= v@.len(),
            out@ == v@.subrange(a as int, i as int),
        decreases b - i,
    {
        out.push(v[i].clone());
        i = i + 1;
        assert(out@ =~= v@.subrange(a as int, i as int));
    }
    out
}

/// Splits points into parts at the given starts.
pub fn split_points(starts: &Vec<usize>, pts: &Vec<Point>) -> (r: Vec<Vec<Point>>)
    requires
        parts_ok(starts_view(starts@), pts@.len() as int),
    ensures
        parts_view(r@) == split_parts(starts_view(starts@), pts@),
{
    let ghost sv = starts_view(starts@);
    let n = starts.len();
    let npts = pts.len();
    let mut out: Vec<Vec<Point>> = Vec::new();
    let mut k: usize = 0;
    proof {
        assert forall|j: int| 0 <= j < sv.len() implies sv[j] <= npts by {
            lemma_starts_below_last(sv, j);
        }
    }
    while k < n
        invariant
            n == starts@.len(),
            npts == pts@.len(),
            sv == starts_view(starts@),
            parts_ok(sv, npts as int),
            forall|j: int| 0 <= j < sv.len() ==> sv[j] <= npts,
            k <= n,
            parts_view(out@) == split_parts(sv, pts@).take(k as int),
        decreases n - k,
    {
        let a = starts[k];
        let b = if k + 1 < n {
            starts[k + 1]
        } else {
            npts
        };
        assert(sv[k as int] == a);
        assert(a <= b) by {
            if k + 1 < n {
                assert(sv[k as int] <= sv[k + 1]);
            }
        }
        let part = copy_points(pts, a, b);
        let ghost before = out@;
        let ghost pv = part@;
        assert(pv == split_parts(sv, pts@)[k as int]);
        out.push(part);
        k = k + 1;
        proof {
            lemma_parts_view_push(before, out@.last());
            assert(out@ == before.push(out@.last()));
            assert(split_parts(sv, pts@).take(k as int) =~= split_parts(sv, pts@).take(k - 1).push(
                pv,
            ));
        }
    }
    assert(split_parts(sv, pts@).take(n as int) =~= split_parts(sv, pts@));
    out
}

/// The parts as polygon rings.
fn into_rings(parts: &Vec<Vec<Point>>) -> (r: Vec<Ring>)
    ensures
        rings_view(r@) == parts_view(parts@),
{
    let mut out: Vec<Ring> = Vec::new();
    let n = parts.len();
    let mut i: usize = 0;
    while i < n
        invariant
            n == parts@.len(),
            i <= n,
            rings_view(out@) == parts_view(parts@).take(i as int),
        decreases n - i,
    {
        let ghost before = out@;
        out.push(Ring { points: clone_points(&parts[i]) });
        i = i + 1;
        proof {
            lemma_rings_view_push(before, out@.last());
            assert(out@ == before.push(out@.last()));
            assert(parts_view(parts@).take(i as int) =~= parts_view(parts@).take(i - 1).push(
                parts@[i - 1]@,
            ));
        }
    }
    assert(parts_view(parts@).take(n as int) =~= parts_view(parts@));
    out
}

pub struct ShpParser {
    reader: BinaryReader,
    shx: Option<ShxIndex>,
}

impl ShpParser {
    /// The main file's bytes.
    pub closed spec fn bytes(&self) -> Seq<u8> {
        self.reader.bytes()
    }

    /// The main file's read position.
    pub closed spec fn pos(&self) -> int {
        self.reader.pos()
    }

    /// Whether the record that index entry `index` points to reads without
    /// a panic (always, without an index or past its last entry).
    pub fn entry_readable(&self, index: usize) -> (r: bool)
        ensures
            r == shx_record_ok(self.bytes(), self.shx_entries(), index as int),
    {
        match &self.shx {
            Some(x) => {
                if index < x.entries.len() {
                    let (kind, _) = record_layout(self.reader.data(), x.entries[index].0);
                    match kind {
                        RecordKind::Malformed => false,
                        _ => true,
                    }
                } else {
                    true
                }
            },
            None => true,
        }
    }

    /// Whether the record at the current position reads without a panic.
    pub fn next_readable(&self) -> (r: bool)
        ensures
            r == record_ok(self.bytes(), self.pos()),
    {
        let p = match self.reader.position() {
            Ok(p) => p,
            Err(_) => {
                return false;
            },
        };
        let (kind, _) = record_layout(self.reader.data(), p);
        match kind {
            RecordKind::Malformed => false,
            _ => true,
        }
    }

    /// Whether the first `n` records of the main file read without a panic.
    pub fn records_readable_from_start(&self, n: usize) -> (r: bool)
        ensures
            r == records_ok_n(self.bytes(), 100, n as int),
    {
        records_readable(self.reader.data(), 100, n)
    }

    /// Reads `n` part-start indices.
    fn read_starts(&mut self, n: usize) -> (r: Result<Vec<usize>, ShapefileError>)
        ensures
            final(self).bytes() == old(self).bytes(),
            final(self).shx_entries() == old(self).shx_entries(),
            (n == 0 || old(self).pos() + 4 * n <= old(self).bytes().len()) ==> (r matches Ok(v)
                && starts_view(v@) == starts_at(old(self).bytes(), old(self).pos(), n as int)
                && final(self).pos() == old(self).pos() + 4 * n),
            (n > 0 && old(self).pos() + 4 * n > old(self).bytes().len()) ==> (r matches Err(e)
                && e is CorruptedFile && final(self).pos() == old(self).bytes().len()),
    {
        let ghost s = self.reader.bytes();
        let ghost p = self.reader.pos();
        let mut out: Vec<usize> = Vec::new();
        let mut k: usize = 0;
        while k < n
            invariant
                s == old(self).bytes(),
                p == old(self).pos(),
                self.reader.bytes() == s,
                self.shx_entries() == old(self).shx_entries(),
                k <= n,
                self.reader.pos() == p + 4 * k,
                k == 0 || p + 4 * k <= s.len(),
                starts_view(out@) == starts_at(s, p, k as int),
            decreases n - k,
        {
            let v = self.reader.read_i32_le()?;
            let ghost before = out@;
            let u = to_usize(v);
            out.push(u);
            k = k + 1;
            assert(starts_view(out@) =~= starts_at(s, p, k as int)) by {
                assert(out@ == before.push(u));
                assert(starts_view(before.push(u)) =~= starts_view(before).push(u as int));
                assert(starts_at(s, p, k as int) =~= starts_at(s, p, k - 1).push(
                    usize_of(i32_le_at(s, p + 4 * (k - 1))),
                ));
            }
        }
        Ok(out)
    }

    /// Reads `n` points.
    fn read_points(&mut self, n: usize) -> (r: Result<Vec<Point>, ShapefileError>)
        ensures
            final(self).bytes() == old(self).bytes(),
            final(self).shx_entries() == old(self).shx_entries(),
            (n == 0 || old(self).pos() + 16 * n <= old(self).bytes().len()) ==> (r matches Ok(v) && v@
                == points_at(old(self).bytes(), old(self).pos(), n as int) && final(self).pos()
                == old(self).pos() + 16 * n),
            (n > 0 && old(self).pos() + 16 * n > old(self).bytes().len()) ==> (r matches Err(e)
                && e is CorruptedFile && final(self).pos() == old(self).bytes().len()),
    {
        let ghost s = self.reader.bytes();
        let ghost p = self.reader.pos();
        let mut out: Vec<Point> = Vec::new();
        let mut k: usize = 0;
        while k < n
            invariant
                s == old(self).bytes(),
                p == old(self).pos(),
                self.reader.bytes() == s,
                self.shx_entries() == old(self).shx_entries(),
                k <= n,
                self.reader.pos() == p + 16 * k,
                k == 0 || p + 16 * k <= s.len(),
                out@ == points_at(s, p, k as int),
            decreases n - k,
        {
            let x = self.reader.read_f64_bits_le()?;
            let y = self.reader.read_f64_bits_le()?;
            out.push(Point { x: Number::Bits(x), y: Number::Bits(y) });
            k = k + 1;
            assert(out@ =~= points_at(s, p, k as int));
        }
        Ok(out)
    }

    /// Skips a record's four bounding-box values.
    fn skip_record_bbox(&mut self) -> (r: Result<(), ShapefileError>)
        ensures
            final(self).bytes() == old(self).bytes(),
            final(self).shx_entries() == old(self).shx_entries(),
            old(self).pos() + 32 <= old(self).bytes().len() ==> r is Ok && final(self).pos()
                == old(self).pos() + 32,
            old(self).pos() + 32 > old(self).bytes().len() ==> (r matches Err(e)
                && e is CorruptedFile && final(self).pos() == old(self).bytes().len()),
    {
        let _x_min = self.reader.read_f64_bits_le()?;
        let _y_min = self.reader.read_f64_bits_le()?;
        let _x_max = self.reader.read_f64_bits_le()?;
        let _y_max = self.reader.read_f64_bits_le()?;
        Ok(())
    }

    /// The index entries, when an index was given.
    pub closed spec fn shx_entries(&self) -> Option<Seq<(u64, u32)>> {
        match &self.shx {
            Some(x) => Some(x.entries@),
            None => None,
        }
    }

    /// Reads the content of a polyline or polygon record (after its shape type).
    fn parse_poly_parts(&mut self, Ghost(p): Ghost<int>) -> (r: Result<Vec<Vec<Point>>, ShapefileError>)
        requires
            old(self).pos() == p + 12,
            p + 12 <= old(self).bytes().len(),
            record_ok(old(self).bytes(), p),
            i32_le_at(old(self).bytes(), p + 8) == 3 || i32_le_at(old(self).bytes(), p + 8) == 5,
        ensures
            final(self).bytes() == old(self).bytes(),
            final(self).shx_entries() == old(self).shx_entries(),
            final(self).pos() == next_offset(old(self).bytes(), p),
            match record_at(old(self).bytes(), p) {
                RecordOutcome::Parsed(GeometryView::Polyline(parts), _) => r matches Ok(v)
                    && parts_view(v@) == parts,
                RecordOutcome::Parsed(GeometryView::Polygon(parts), _) => r matches Ok(v)
                    && parts_view(v@) == parts,
                _ => r matches Err(e) && e is CorruptedFile,
            },
    {
        let ghost s = self.reader.bytes();
        self.skip_record_bbox()?;
        let num_parts = to_usize(self.reader.read_i32_le()?);
        let num_points = to_usize(self.reader.read_i32_le()?);
        let part_starts = self.read_starts(num_parts)?;
        let points = self.read_points(num_points)?;
        proof {
            assert(points@.len() == num_points);
        }
        Ok(split_points(&part_starts, &points))
    }

    /// Reads one record at the current position.
    pub fn parse_record(&mut self) -> (r: Result<Geometry, ShapefileError>)
        requires
            record_ok(old(self).bytes(), old(self).pos()),
        ensures
            final(self).bytes() == old(self).bytes(),
            final(self).shx_entries() == old(self).shx_entries(),
            record_result_matches(r, record_at(old(self).bytes(), old(self).pos())),
            final(self).pos() == next_offset(old(self).bytes(), old(self).pos()),
    {
        let ghost s = self.reader.bytes();
        let ghost p = self.reader.pos();
        let _record_number = self.reader.read_i32_be()?;
        let _content_length = self.reader.read_i32_be()?;
        let shape_type_code = self.reader.read_i32_le()?;
        match shape_type_code {
            0 => Ok(Geometry::Null),
            1 => {
                let x = self.reader.read_f64_bits_le()?;
                let y = self.reader.read_f64_bits_le()?;
                Ok(Geometry::Point(Point { x: Number::Bits(x), y: Number::Bits(y) }))
            },
            3 => {
                let parts = self.parse_poly_parts(Ghost(p))?;
                Ok(Geometry::Polyline(Polyline { parts }))
            },
            5 => {
                let parts = self.parse_poly_parts(Ghost(p))?;
                Ok(Geometry::Polygon(Polygon { rings: into_rings(&parts) }))
            },
            8 => {
                self.skip_record_bbox()?;
                let num_points = to_usize(self.reader.read_i32_le()?);
                let points = self.read_points(num_points)?;
                Ok(Geometry::MultiPoint(MultiPoint { points }))
            },
            n => Err(ShapefileError::UnsupportedShapeType(n)),
        }
    }
}

/// Reading the records from `p` on, stopping at the first error or after
/// `n` records, does not panic.
pub open spec fn records_ok_n(s: Seq<u8>, p: int, n: int) -> bool
    decreases n,
{
    n <= 0 || (record_ok(s, p) && match record_at(s, p) {
        RecordOutcome::Parsed(_, e) => records_ok_n(s, e, n - 1),
        _ => true,
    })
}

/// The index entry `index` leads to a record that reads without panicking.
pub open spec fn shx_record_ok(s: Seq<u8>, entries: Option<Seq<(u64, u32)>>, index: int) -> bool {
    match entries {
        Some(es) => 0 <= index < es.len() ==> record_ok(s, es[index].0 as int),
        None => true,
    }
}

/// What kind of outcome a record has, and where reading continues after it.
pub enum RecordKind {
    Parsed,
    Truncated,
    Unsupported,
    Malformed,
}

pub open spec fn kind_of(o: RecordOutcome) -> RecordKind {
    match o {
        RecordOutcome::Parsed(_, _) => RecordKind::Parsed,
        RecordOutcome::Truncated => RecordKind::Truncated,
        RecordOutcome::Unsupported(_) => RecordKind::Unsupported,
        RecordOutcome::Malformed => RecordKind::Malformed,
    }
}

/// Whether the part starts stored at `i` are usable for `npts` points.
fn starts_ok_at(s: &Vec<u8>, i: usize, np: usize, npts: usize) -> (r: bool)
    requires
        i + 4 * np <= s@.len(),
    ensures
        r == parts_ok(starts_at(s@, i as int, np as int), npts as int),
{
    let ghost sv = starts_at(s@, i as int, np as int);
    if np == 0 {
        return false;
    }
    let mut k: usize = 0;
    let len = s.len();
    while k + 1 < np
        invariant
            len == s@.len(),
            i + 4 * np <= s@.len(),
            0 < np,
            k < np,
            sv == starts_at(s@, i as int, np as int),
            forall|j: int| 0 <= j < k ==> #[trigger] sv[j] <= sv[j + 1],
        decreases np - k,
    {
        let a = to_usize(i32_from_le(s.as_slice(), i + 4 * k));
        let b = to_usize(i32_from_le(s.as_slice(), i + 4 * (k + 1)));
        if a > b {
            assert(!(sv[k as int] <= sv[k + 1]));
            return false;
        }
        k = k + 1;
    }
    let last = to_usize(i32_from_le(s.as_slice(), i + 4 * (np - 1)));
    last <= npts
}

/// The outcome kind of the record at `p`, and where reading continues.
pub fn record_layout(s: &Vec<u8>, p: u64) -> (r: (RecordKind, u64))
    ensures
        r.0 == kind_of(record_at(s@, p as int)),
        r.1 == next_offset(s@, p as int),
{
    let len = s.len() as u64;
    if p > len || len - p < 12 {
        return (RecordKind::Truncated, len);
    }
    let pu = p as usize;
    let t = i32_from_le(s.as_slice(), pu + 8);
    if t == 0 {
        (RecordKind::Parsed, p + 12)
    } else if t == 1 {
        if len - p < 28 {
            (RecordKind::Truncated, len)
        } else {
            (RecordKind::Parsed, p + 28)
        }
    } else if t == 3 || t == 5 {
        if len - p < 52 {
            return (RecordKind::Truncated, len);
        }
        let np = to_usize(i32_from_le(s.as_slice(), pu + 44));
        let npts = to_usize(i32_from_le(s.as_slice(), pu + 48));
        let e: u128 = (p as u128) + 52 + 4 * (np as u128) + 16 * (npts as u128);
        if e > len as u128 {
            (RecordKind::Truncated, len)
        } else if !starts_ok_at(s, pu + 52, np, npts) {
            (RecordKind::Malformed, len)
        } else {
            (RecordKind::Parsed, e as u64)
        }
    } else if t == 8 {
        if len - p < 48 {
            return (RecordKind::Truncated, len);
        }
        let n = to_usize(i32_from_le(s.as_slice(), pu + 44));
        let e: u128 = (p as u128) + 48 + 16 * (n as u128);
        if e > len as u128 {
            (RecordKind::Truncated, len)
        } else {
            (RecordKind::Parsed, e as u64)
        }
    } else {
        (RecordKind::Unsupported, p + 12)
    }
}

/// Whether reading up to `n` records from offset `p` (stopping at the first
/// error) avoids every malformed record.
pub fn records_readable(s: &Vec<u8>, p: u64, n: usize) -> (r: bool)
    ensures
        r == records_ok_n(s@, p as int, n as int),
{
    let mut pos = p;
    let mut k: usize = 0;
    while k < n
        invariant
            k <= n,
            records_ok_n(s@, p as int, n as int) == records_ok_n(s@, pos as int, n - k),
        decreases n - k,
    {
        let (kind, next) = record_layout(s, pos);
        match kind {
            RecordKind::Malformed => return false,
            RecordKind::Parsed => {
                pos = next;
                k = k + 1;
            },
            _ => return true,
        }
    }
    true
}

/// Whether the index file makes reading it overflow (and so panic).
pub fn shx_overflows(s: &Vec<u8>) -> (r: bool)
    ensures
        r == (shx_at(s@) is Overflows),
{
    let len = s.len();
    if len < 4 || i32_from_be(s.as_slice(), 0) != 9994 || len < 100 {
        return false;
    }
    let fl = i32_from_be(s.as_slice(), 24);
    if fl < 50 {
        return true;
    }
    let n: u64 = ((fl as u64) * 2 - 100) / 8;
    assert(n == shx_entry_count(shx_file_length(s@)));
    let mut k: u64 = 0;
    while k < n
        invariant
            len == s@.len(),
            n == shx_entry_count(shx_file_length(s@)),
            k <= n,
            n < 0x2000_0000,
            s@.len() >= 100,
            i32_be_at(s@, 0) == 9994,
            shx_file_length(s@) >= 50,
            forall|j: int| 0 <= j < k ==> !#[trigger] shx_entry_overflows(s@, j),
        decreases n - k,
    {
        if (len as u64) < 108 + 8 * k {
            assert forall|j: int| k <= j < n implies !#[trigger] shx_entry_overflows(s@, j) by {}
            return false;
        }
        let i = (100 + 8 * k) as usize;
        if i32_from_be(s.as_slice(), i) < 0 || i32_from_be(s.as_slice(), i + 4) < 0 {
            assert(shx_entry_overflows(s@, k as int));
            assert(exists|j: int| 0 <= j < n && #[trigger] shx_entry_overflows(s@, j));
            return true;
        }
        k = k + 1;
    }
    false
}

/// Reads the .shx index.
fn parse_shx(shx: Vec<u8>) -> (r: Result<ShxIndex, ShapefileError>)
    requires
        !(shx_at(shx@) is Overflows),
    ensures
        match shx_at(shx@) {
            ShxOutcome::Parsed(es) => r matches Ok(x) && x.entries@ == es,
            ShxOutcome::Truncated => r matches Err(e) && e is CorruptedFile,
            ShxOutcome::InvalidFileCode(c) => r == Err::<ShxIndex, ShapefileError>(
                ShapefileError::InvalidFileCode { actual: c as i32 },
            ),
            ShxOutcome::Overflows => false,
        },
{
    let ghost s = shx@;
    let mut shx_br = BinaryReader::new(shx);
    let file_code = shx_br.read_i32_be()?;
    if file_code != 9994 {
        return Err(ShapefileError::InvalidFileCode { actual: file_code });
    }
    let _unused = shx_br.read_bytes(20)?;
    let file_length = shx_br.read_i32_be()?;
    let _version = shx_br.read_i32_le()?;
    let _shape_type = shx_br.read_i32_le()?;
    let _bbox = shx_br.read_bytes(64)?;
    assert(file_length as int == shx_file_length(s));
    let file_length_bytes = file_length as u64 * 2;
    let num_entries = (file_length_bytes - 100) / 8;
    let ghost n = shx_entry_count(shx_file_length(s));
    assert(num_entries == n);
    let mut entries: Vec<(u64, u32)> = Vec::new();
    let mut k: u64 = 0;
    assert(forall|j: int| 0 <= j < n ==> !#[trigger] shx_entry_overflows(s, j));
    while k < num_entries
        invariant
            s == shx@,
            shx_br.bytes() == s,
            !(shx_at(s) is Overflows),
            forall|j: int| 0 <= j < n ==> !#[trigger] shx_entry_overflows(s, j),
            s.len() >= 100,
            i32_be_at(s, 0) == 9994,
            shx_file_length(s) >= 50,
            n == shx_entry_count(shx_file_length(s)),
            num_entries == n,
            k <= n,
            shx_br.pos() == 100 + 8 * k,
            100 + 8 * k <= s.len(),
            entries@ == Seq::new(k as nat, |j: int| shx_entry(s, j)),
        decreases num_entries - k,
    {
        let offset_words = match shx_br.read_i32_be() {
            Ok(v) => v,
            Err(e) => {
                assert(100 + 8 * n > s.len());
                return Err(e);
            },
        };
        let content_length_words = match shx_br.read_i32_be() {
            Ok(v) => v,
            Err(e) => {
                assert(100 + 8 * n > s.len());
                return Err(e);
            },
        };
        proof {
            if offset_words < 0 || content_length_words < 0 {
                assert(shx_entry_overflows(s, k as int));
            }
        }
        let off = offset_words as u64;
        let len = content_length_words as u32;
        entries.push((off * 2, len * 2));
        k = k + 1;
        assert(entries@ =~= Seq::new(k as nat, |j: int| shx_entry(s, j)));
    }
    Ok(ShxIndex { entries })
}

impl ShpParser {
    /// Opens the main file image and, when given, reads the index.
    pub fn new(shp: Vec<u8>, shx: Option<Vec<u8>>) -> (r: Result<Self, ShapefileError>)
        requires
            shx matches Some(x) ==> !(shx_at(x@) is Overflows),
        ensures
            r matches Ok(pr) ==> pr.bytes() == shp@ && pr.pos() == 0,
            shx is None ==> (r matches Ok(pr) && pr.shx_entries() is None),
            shx matches Some(x) ==> match shx_at(x@) {
                ShxOutcome::Parsed(es) => r matches Ok(pr) && pr.shx_entries() == Some(es),
                ShxOutcome::Truncated => r matches Err(e) && e is CorruptedFile,
                ShxOutcome::InvalidFileCode(c) => r == Err::<ShpParser, ShapefileError>(
                    ShapefileError::InvalidFileCode { actual: c as i32 },
                ),
                ShxOutcome::Overflows => false,
            },
    {
        let shx_index = match shx {
            Some(x) => Some(parse_shx(x)?),
            None => None,
        };
        Ok(ShpParser { reader: BinaryReader::new(shp), shx: shx_index })
    }

    /// Reads the 100-byte header at the current position.
    pub fn parse_header(&mut self) -> (r: Result<ShpHeader, ShapefileError>)
        ensures
            final(self).bytes() == old(self).bytes(),
            final(self).shx_entries() == old(self).shx_entries(),
            match header_at(old(self).bytes(), old(self).pos()) {
                HeaderOutcome::Parsed(t, fl, b) => r matches Ok(h) && h.shape_type == t
                    && h.file_length == fl && h.bbox == (BoundingBox {
                    x_min: Number::Bits(b[0] as u64),
                    y_min: Number::Bits(b[1] as u64),
                    x_max: Number::Bits(b[2] as u64),
                    y_max: Number::Bits(b[3] as u64),
                }) && final(self).pos() == old(self).pos() + 100,
                HeaderOutcome::Truncated => r matches Err(e) && e is CorruptedFile,
                HeaderOutcome::InvalidFileCode(c) => r == Err::<ShpHeader, ShapefileError>(
                    ShapefileError::InvalidFileCode { actual: c as i32 },
                ),
                HeaderOutcome::InvalidVersion(v) => r == Err::<ShpHeader, ShapefileError>(
                    ShapefileError::InvalidVersion { actual: v as i32 },
                ),
                HeaderOutcome::Unsupported(c) => r == Err::<ShpHeader, ShapefileError>(
                    ShapefileError::UnsupportedShapeType(c as i32),
                ),
            },
    {
        let file_code = self.reader.read_i32_be()?;
        if file_code != 9994 {
            return Err(ShapefileError::InvalidFileCode { actual: file_code });
        }
        let _unused = self.reader.read_bytes(20)?;
        let file_length = self.reader.read_i32_be()?;
        let version = self.reader.read_i32_le()?;
        if version != 1000 {
            return Err(ShapefileError::InvalidVersion { actual: version });
        }
        let shape_type_code = self.reader.read_i32_le()?;
        let shape_type = ShapeType::try_from(shape_type_code)?;
        let x_min = self.reader.read_f64_bits_le()?;
        let y_min = self.reader.read_f64_bits_le()?;
        let x_max = self.reader.read_f64_bits_le()?;
        let y_max = self.reader.read_f64_bits_le()?;
        let _z_min = self.reader.read_f64_bits_le()?;
        let _z_max = self.reader.read_f64_bits_le()?;
        let _m_min = self.reader.read_f64_bits_le()?;
        let _m_max = self.reader.read_f64_bits_le()?;
        Ok(ShpHeader {
            shape_type,
            file_length,
            bbox: BoundingBox {
                x_min: Number::Bits(x_min),
                y_min: Number::Bits(y_min),
                x_max: Number::Bits(x_max),
                y_max: Number::Bits(y_max),
            },
        })
    }

    /// Moves back to the start of record data (byte offset 100, right after
    /// the header).
    pub fn seek_to_records(&mut self) -> (r: Result<(), ShapefileError>)
        ensures
            r is Ok,
            final(self).bytes() == old(self).bytes(),
            final(self).shx_entries() == old(self).shx_entries(),
            final(self).pos() == 100,
    {
        self.reader.seek_from_start(100)?;
        Ok(())
    }

    /// The record number stored in the header of the record at `offset`,
    /// when the header's first four bytes are present.
    pub fn stored_number(&self, offset: u64) -> (r: Option<u32>)
        ensures
            offset + 4 <= self.bytes().len() ==> r == Some(stored_record_number(self.bytes(), offset as int)),
            offset + 4 > self.bytes().len() ==> r is None,
    {
        let d = self.reader.data();
        if offset > d.len() as u64 || d.len() as u64 - offset < 4 {
            return None;
        }
        let i = offset as usize;
        let u: u32 = 16777216 * (d[i] as u32) + 65536 * (d[i + 1] as u32) + 256 * (d[i + 2] as u32) + (
        d[i + 3] as u32);
        Some(u)
    }

    /// The read position in the main file.
    pub fn position(&self) -> (r: u64)
        ensures
            r == self.pos(),
    {
        match self.reader.position() {
            Ok(p) => p,
            Err(_) => 0,
        }
    }

    /// The byte offset that index entry `index` gives, if there is an index
    /// and such an entry.
    pub fn entry_offset(&self, index: usize) -> (r: Option<u64>)
        ensures
            match self.shx_entries() {
                Some(es) => if index < es.len() {
                    r == Some(es[index as int].0)
                } else {
                    r is None
                },
                None => r is None,
            },
    {
        match &self.shx {
            Some(x) => if index < x.entries.len() {
                Some(x.entries[index].0)
            } else {
                None
            },
            None => None,
        }
    }

    /// Whether this parser has an index for random access.
    pub fn has_shx(&self) -> (r: bool)
        ensures
            r == self.shx_entries() is Some,
    {
        self.shx.is_some()
    }

    /// One step of sequential reading: `None` at the end of the data,
    /// otherwise the next record.
    pub fn next_record(&mut self) -> (r: Option<Result<Geometry, ShapefileError>>)
        requires
            record_ok(old(self).bytes(), old(self).pos()),
        ensures
            final(self).bytes() == old(self).bytes(),
            final(self).shx_entries() == old(self).shx_entries(),
            old(self).pos() >= old(self).bytes().len() ==> r is None && final(self).pos() == old(self).pos(),
            old(self).pos() < old(self).bytes().len() ==> (r matches Some(x)
                && record_result_matches(x, record_at(old(self).bytes(), old(self).pos()))
                && final(self).pos() == next_offset(old(self).bytes(), old(self).pos())),
    {
        match self.reader.is_eof() {
            Ok(true) => None,
            Ok(false) => Some(self.parse_record()),
            Err(e) => Some(Err(e)),
        }
    }

    /// Reads the record that index entry `index` points to: `None` past the
    /// last entry, an error when there is no index.
    pub fn read_at(&mut self, index: usize) -> (r: Result<Option<Geometry>, ShapefileError>)
        requires
            shx_record_ok(old(self).bytes(), old(self).shx_entries(), index as int),
        ensures
            final(self).bytes() == old(self).bytes(),
            final(self).shx_entries() == old(self).shx_entries(),
            match old(self).shx_entries() {
                None => r matches Err(e) && e is CorruptedFile,
                Some(es) => if index >= es.len() {
                    r matches Ok(None)
                } else {
                    match record_at(old(self).bytes(), es[index as int].0 as int) {
                        RecordOutcome::Parsed(g, _) => r matches Ok(Some(geom)) && geom@ == g,
                        RecordOutcome::Truncated => r matches Err(e) && e is CorruptedFile,
                        RecordOutcome::Unsupported(t) => r
                            == Err::<Option<Geometry>, ShapefileError>(
                            ShapefileError::UnsupportedShapeType(t as i32),
                        ),
                        RecordOutcome::Malformed => false,
                    }
                },
            },
    {
        let offset = match &self.shx {
            Some(shx) => {
                if index >= shx.entries.len() {
                    return Ok(None);
                }
                shx.entries[index].0
            },
            None => {
                return Err(
                    ShapefileError::CorruptedFile {
                        reason: "SHX index not available for random access".to_string(),
                    },
                );
            },
        };
        self.reader.seek_from_start(offset)?;
        Ok(Some(self.parse_record()?))
    }

    /// Reads every record from the current position to the end of the data.
    pub fn iter_records(&mut self) -> (r: Vec<Result<Geometry, ShapefileError>>)
        requires
            records_ok_from(old(self).bytes(), old(self).pos()),
        ensures
            final(self).bytes() == old(self).bytes(),
            final(self).shx_entries() == old(self).shx_entries(),
            r@.len() == records_from(old(self).bytes(), old(self).pos()).len(),
            forall|k: int|
                0 <= k < r@.len() ==> record_result_matches(
                    #[trigger] r@[k],
                    records_from(old(self).bytes(), old(self).pos())[k],
                ),
    {
        let ghost s = self.reader.bytes();
        let ghost p0 = self.reader.pos();
        let ghost all = records_from(s, p0);
        let mut out: Vec<Result<Geometry, ShapefileError>> = Vec::new();
        let ghost mut done: Seq<RecordOutcome> = Seq::empty();
        proof {
            self.reader.lemma_pos_bounds();
            assert(all =~= done + records_from(s, self.reader.pos()));
        }
        while !self.reader.at_end()
            invariant
                s == old(self).bytes(),
                self.reader.bytes() == s,
                self.shx_entries() == old(self).shx_entries(),
                all == records_from(s, p0),
                records_ok_from(s, p0),
                all == done + records_from(s, self.reader.pos()),
                out@.len() == done.len(),
                forall|k: int| 0 <= k < out@.len() ==> record_result_matches(#[trigger] out@[k], done[k]),
                self.reader.pos() >= 0,
            decreases s.len() - self.reader.pos(),
        {
            let ghost pos = self.reader.pos();
            proof {
                lemma_records_from_unfold(s, pos);
                assert(all[done.len() as int] == record_at(s, pos));
                lemma_record_end(s, pos);
            }
            let g = self.parse_record();
            out.push(g);
            proof {
                done = done.push(record_at(s, pos));
                assert(all =~= done + records_from(s, self.reader.pos()));
            }
        }
        proof {
            assert(records_from(s, self.reader.pos()) =~= Seq::<RecordOutcome>::empty());
            assert(all =~= done);
        }
        out
    }
}

/// Reading restarts at the first record: two parsers over the same main
/// file, both at its first record (where `parse_header` leaves one and where
/// `seek_to_records` puts one back), read the same next record and the same
/// records from there on.
pub proof fn lemma_seek_restarts(a: ShpParser, b: ShpParser)
    requires
        a.bytes() == b.bytes(),
        a.pos() == 100,
        b.pos() == 100,
    ensures
        record_at(a.bytes(), a.pos()) == record_at(b.bytes(), b.pos()),
        records_from(a.bytes(), a.pos()) == records_from(b.bytes(), b.pos()),
{
}

} // verus!
