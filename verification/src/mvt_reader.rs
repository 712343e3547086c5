//! Mapbox vector tiles: the command streams that encode feature geometry in
//! tile pixel space, the tag tables that encode attributes, and a reader over
//! a decoded tile.
use crate::error::ShapefileError;
use crate::models::attribute::{AttributeValue, Attributes};
use crate::number::Number;
use crate::text::str_eq;
use vstd::prelude::*;
use vstd::seq_lib::*;

verus! {

// ---------------------------------------------------------------------------
// Integer codings
// ---------------------------------------------------------------------------

/// The signed integer that ZigZag code `n` stands for: 0, -1, 1, -2, 2, ...
pub open spec fn zigzag_value(n: u32) -> int {
    if n % 2 == 0 {
        (n / 2) as int
    } else {
        -((n / 2) as int) - 1
    }
}

/// The ZigZag code of `n`.
pub open spec fn zigzag_code(n: i32) -> int {
    if n >= 0 {
        2 * n
    } else {
        -2 * n - 1
    }
}

/// ZigZag decoding: maps unsigned to signed.
pub fn decode_zigzag(n: u32) -> (r: i32)
    ensures
        r == zigzag_value(n),
{
    let h: i32 = (n >> 1) as i32;
    let b: i32 = (n & 1) as i32;
    proof {
        assert(n >> 1u32 == n / 2) by (bit_vector);
        assert(n & 1u32 == n % 2) by (bit_vector);
        assert((n >> 1u32) < 0x8000_0000u32) by (bit_vector);
        assert(h == n / 2);
        assert(b == n % 2);
    }
    let nb: i32 = -b;
    proof {
        assert(nb == 0i32 ==> h ^ nb == h) by (bit_vector);
        assert(nb == -1i32 ==> h ^ nb == -h - 1) by (bit_vector)
            requires
                0 <= h,
        ;
    }
    h ^ -b
}

/// ZigZag encoding: maps signed to unsigned.
pub fn encode_zigzag(n: i32) -> (r: u32)
    ensures
        r == zigzag_code(n),
{
    proof {
        assert(n >= 0 ==> ((n << 1i32) ^ (n >> 31i32)) as u32 == 2 * (n as u32)) by (bit_vector);
        assert(n < 0 ==> ((n << 1i32) ^ (n >> 31i32)) as u32 == 2 * ((-(n + 1)) as u32) + 1)
            by (bit_vector);
    }
    ((n << 1) ^ (n >> 31)) as u32
}

/// Decoding undoes encoding: every `i32` survives a round trip through its
/// ZigZag code, and the code always fits in a `u32`.
pub proof fn lemma_zigzag_roundtrip(n: i32)
    ensures
        0 <= zigzag_code(n) <= u32::MAX,
        zigzag_value(zigzag_code(n) as u32) == n,
{
}

/// Encoding undoes decoding: every `u32` is the ZigZag code of the value it
/// decodes to, and that value fits in an `i32`.
pub proof fn lemma_zigzag_code_of_value(c: u32)
    ensures
        i32::MIN <= zigzag_value(c) <= i32::MAX,
        zigzag_code(zigzag_value(c) as i32) == c,
{
}

/// A command word: the command id in the low three bits, the repeat count in
/// the rest (its low 29 bits).
pub fn encode_command(id: u32, count: u32) -> (r: u32)
    ensures
        r == id % 8 + (count % 0x2000_0000) * 8,
{
    proof {
        assert((id & 0x7u32) | (count << 3u32) == id % 8 + (count % 0x2000_0000) * 8)
            by (bit_vector);
    }
    (id & 0x7) | (count << 3)
}

// ---------------------------------------------------------------------------
// Tiles and layer filters
// ---------------------------------------------------------------------------

/// A Slippy Map tile coordinate at a given zoom level.
#[derive(Debug, Clone, Copy, PartialEq, Eq, Hash)]
pub struct TileCoord {
    /// Zoom level.
    pub z: u32,
    /// Column (x) index.
    pub x: u32,
    /// Row (y) index.
    pub y: u32,
}

impl TileCoord {
    /// Creates a new tile coordinate.
    pub fn new(z: u32, x: u32, y: u32) -> (r: Self)
        ensures
            r.z == z && r.x == x && r.y == y,
    {
        TileCoord { z, x, y }
    }
}

/// A filter for selecting specific layers and/or feature codes of a tile.
#[derive(Debug, Clone)]
pub struct LayerFilter {
    /// If set, only features from these layers are included.
    pub layer_names: Option<Vec<String>>,
    /// If set, only features whose `ftCode` attribute matches one of these values are included.
    pub ft_codes: Option<Vec<i64>>,
}

impl LayerFilter {
    /// A filter that lets everything through.
    pub fn new() -> (r: Self)
        ensures
            r.layer_names is None && r.ft_codes is None,
    {
        LayerFilter { layer_names: None, ft_codes: None }
    }

    /// Preset filter for road centerline feature codes (2701-2704).
    pub fn road_centerline() -> (r: Self)
        ensures
            r.layer_names is None,
            r.ft_codes matches Some(c) && c@ == seq![2701i64, 2702, 2703, 2704],
    {
        LayerFilter { layer_names: None, ft_codes: Some(vec![2701, 2702, 2703, 2704]) }
    }

    /// Filter by a single layer name.
    pub fn layer(name: String) -> (r: Self)
        ensures
            r.layer_names matches Some(v) && v@.len() == 1 && v@[0]@ == name@,
            r.ft_codes is None,
    {
        LayerFilter { layer_names: Some(vec![name]), ft_codes: None }
    }
}

impl Default for LayerFilter {
    fn default() -> (r: Self)
        ensures
            r.layer_names is None && r.ft_codes is None,
    {
        LayerFilter::new()
    }
}

// ---------------------------------------------------------------------------
// Geometry command streams
// ---------------------------------------------------------------------------

/// The geometry type a feature declares.
#[derive(Debug, Clone, Copy, PartialEq, Eq)]
pub enum GeomType {
    Unknown,
    Point,
    Linestring,
    Polygon,
}

/// The geometry type that a feature's optional type number selects: 1, 2
/// and 3 name points, line strings and polygons; anything else, or no
/// number, is `Unknown`.
pub open spec fn geom_type_of(t: Option<i32>) -> GeomType {
    match t {
        Some(1) => GeomType::Point,
        Some(2) => GeomType::Linestring,
        Some(3) => GeomType::Polygon,
        _ => GeomType::Unknown,
    }
}

/// Reads a feature's optional type number.
pub fn geom_type_from(t: Option<i32>) -> (r: GeomType)
    ensures
        r == geom_type_of(t),
{
    match t {
        Some(1) => GeomType::Point,
        Some(2) => GeomType::Linestring,
        Some(3) => GeomType::Polygon,
        _ => GeomType::Unknown,
    }
}

/// A position in tile pixel space.
pub type Pixel = (i32, i32);

/// A feature geometry in tile pixel space.
#[derive(Debug, PartialEq)]
pub enum PixelGeometry {
    Null,
    Point(Pixel),
    MultiPoint(Vec<Pixel>),
    Polyline(Vec<Vec<Pixel>>),
    Polygon(Vec<Vec<Pixel>>),
}

/// A pixel geometry as a mathematical value.
pub enum PixelGeometryView {
    Null,
    Point(Pixel),
    MultiPoint(Seq<Pixel>),
    Polyline(Seq<Seq<Pixel>>),
    Polygon(Seq<Seq<Pixel>>),
}

/// The sequences inside a list of vectors.
pub open spec fn seqs_of(v: Seq<Vec<Pixel>>) -> Seq<Seq<Pixel>> {
    v.map_values(|p: Vec<Pixel>| p@)
}

impl View for PixelGeometry {
    type V = PixelGeometryView;

    open spec fn view(&self) -> PixelGeometryView {
        match self {
            PixelGeometry::Null => PixelGeometryView::Null,
            PixelGeometry::Point(p) => PixelGeometryView::Point(*p),
            PixelGeometry::MultiPoint(v) => PixelGeometryView::MultiPoint(v@),
            PixelGeometry::Polyline(v) => PixelGeometryView::Polyline(seqs_of(v@)),
            PixelGeometry::Polygon(v) => PixelGeometryView::Polygon(seqs_of(v@)),
        }
    }
}

/// The state of the command interpreter: the cursor, the finished parts (or
/// closed rings) and the part being built.
pub struct PxState {
    pub cx: i32,
    pub cy: i32,
    pub done: Seq<Seq<Pixel>>,
    pub current: Seq<Pixel>,
}

/// How a command stream is malformed.
pub enum Malformed {
    /// A command its geometry type does not allow.
    BadCommand,
    /// A MoveTo or LineTo whose parameters the stream cuts short.
    Truncated,
}

/// Where interpreting a command stream ends.
pub enum Outcome<T> {
    Done(T),
    /// The stream is malformed: an unexpected command or missing parameters.
    Invalid(Malformed),
    /// The cursor leaves the `i32` range (the interpreter panics there).
    Overflow,
}

/// The interpreter's state before the first command.
pub open spec fn initial_state() -> PxState {
    PxState { cx: 0, cy: 0, done: Seq::empty(), current: Seq::empty() }
}

/// The ring a ClosePath makes of `pts`: closed by repeating its first point.
pub open spec fn closed_ring(pts: Seq<Pixel>) -> Seq<Pixel> {
    if pts.len() > 0 {
        pts.push(pts[0])
    } else {
        pts
    }
}

/// What command `id` does before reading its parameters; `None` when the
/// geometry type does not allow it. MoveTo (1) starts a new line part, LineTo
/// (2) continues, ClosePath (7) closes the current polygon ring.
pub open spec fn command_effect(kind: GeomType, id: int, st: PxState) -> Option<PxState> {
    match kind {
        GeomType::Point => if id == 1 {
            Some(st)
        } else {
            None
        },
        GeomType::Linestring => if id == 1 {
            if st.current.len() > 0 {
                Some(PxState { done: st.done.push(st.current), current: Seq::empty(), ..st })
            } else {
                Some(st)
            }
        } else if id == 2 {
            Some(st)
        } else {
            None
        },
        GeomType::Polygon => if id == 1 || id == 2 {
            Some(st)
        } else if id == 7 {
            Some(PxState { done: st.done.push(closed_ring(st.current)), current: Seq::empty(), ..st })
        } else {
            None
        },
        GeomType::Unknown => None,
    }
}

/// Interprets `cmds` from index `i`, with `pending` coordinate pairs of the
/// last MoveTo or LineTo still to read. Each pair moves the cursor by two
/// ZigZag-coded deltas and adds the new position to the current part.
pub open spec fn run(kind: GeomType, cmds: Seq<u32>, i: int, pending: int, st: PxState) -> Outcome<
    PxState,
>
    decreases cmds.len() - i,
{
    if i < 0 {
        Outcome::Invalid(Malformed::BadCommand)
    } else if pending > 0 {
        if i + 1 >= cmds.len() {
            Outcome::Invalid(Malformed::Truncated)
        } else {
            let nx = st.cx + zigzag_value(cmds[i]);
            let ny = st.cy + zigzag_value(cmds[i + 1]);
            if !(i32::MIN <= nx <= i32::MAX && i32::MIN <= ny <= i32::MAX) {
                Outcome::Overflow
            } else {
                run(
                    kind,
                    cmds,
                    i + 2,
                    pending - 1,
                    PxState {
                        cx: nx as i32,
                        cy: ny as i32,
                        done: st.done,
                        current: st.current.push((nx as i32, ny as i32)),
                    },
                )
            }
        }
    } else if i >= cmds.len() {
        Outcome::Done(st)
    } else {
        let w = cmds[i];
        match command_effect(kind, (w % 8) as int, st) {
            None => Outcome::Invalid(Malformed::BadCommand),
            Some(st2) => run(
                kind,
                cmds,
                i + 1,
                if w % 8 == 7 {
                    0
                } else {
                    (w / 8) as int
                },
                st2,
            ),
        }
    }
}

/// The geometry a finished interpretation describes: one point or a
/// multipoint, the line parts, or every closed ring as one polygon.
pub open spec fn finish(kind: GeomType, st: PxState) -> PixelGeometryView {
    match kind {
        GeomType::Point => if st.current.len() == 1 {
            PixelGeometryView::Point(st.current[0])
        } else {
            PixelGeometryView::MultiPoint(st.current)
        },
        GeomType::Linestring => PixelGeometryView::Polyline(
            if st.current.len() > 0 {
                st.done.push(st.current)
            } else {
                st.done
            },
        ),
        GeomType::Polygon => if st.done.len() == 0 {
            PixelGeometryView::Null
        } else {
            PixelGeometryView::Polygon(st.done)
        },
        GeomType::Unknown => PixelGeometryView::Null,
    }
}

/// The geometry a command stream of the given type encodes.
pub open spec fn decode_outcome(kind: GeomType, cmds: Seq<u32>) -> Outcome<PixelGeometryView> {
    if kind == GeomType::Unknown {
        Outcome::Done(PixelGeometryView::Null)
    } else {
        match run(kind, cmds, 0, 0, initial_state()) {
            Outcome::Done(st) => Outcome::Done(finish(kind, st)),
            Outcome::Invalid(m) => Outcome::Invalid(m),
            Outcome::Overflow => Outcome::Overflow,
        }
    }
}

/// The cross product of point `i` of `pts` with the next one (cyclically).
pub open spec fn cross_term(pts: Seq<Pixel>, i: int) -> int {
    let j = (i + 1) % (pts.len() as int);
    pts[i].0 * pts[j].1 - pts[j].0 * pts[i].1
}

/// The sum of the first `k` cross terms.
pub open spec fn cross_sum(pts: Seq<Pixel>, k: int) -> int
    decreases k,
{
    if k <= 0 {
        0
    } else {
        cross_sum(pts, k - 1) + cross_term(pts, k - 1)
    }
}

/// Twice the signed area that the Shoelace formula gives for `pts`, zero for
/// fewer than three points. With y growing downward, a positive value means a
/// clockwise ring, an exterior one.
pub open spec fn doubled_area(pts: Seq<Pixel>) -> int {
    if pts.len() < 3 {
        0
    } else {
        cross_sum(pts, pts.len() as int)
    }
}

proof fn lemma_cross_term_bound(a: i32, b: i32, c: i32, d: i32)
    ensures
        -0x4000_0000_0000_0000 <= a * b <= 0x4000_0000_0000_0000,
        -0x4000_0000_0000_0000 <= c * d <= 0x4000_0000_0000_0000,
        -0x8000_0000_0000_0000 <= a * b - c * d <= 0x8000_0000_0000_0000,
{
    assert(-0x4000_0000_0000_0000 <= a * b <= 0x4000_0000_0000_0000) by (nonlinear_arith);
    assert(-0x4000_0000_0000_0000 <= c * d <= 0x4000_0000_0000_0000) by (nonlinear_arith);
}

/// Twice the signed area of a ring of pixel positions (Shoelace formula).
pub fn shoelace_signed(coords: &Vec<Pixel>) -> (r: i128)
    requires
        coords@.len() <= 0x8000_0000_0000_0000,
    ensures
        r == doubled_area(coords@),
{
    let n = coords.len();
    if n < 3 {
        return 0;
    }
    let mut area: i128 = 0;
    let mut i: usize = 0;
    while i < n
        invariant
            n == coords@.len(),
            3 <= n <= 0x8000_0000_0000_0000,
            i <= n,
            area == cross_sum(coords@, i as int),
            -(i * 0x8000_0000_0000_0000) <= area <= i * 0x8000_0000_0000_0000,
        decreases n - i,
    {
        let j = (i + 1) % n;
        let p = coords[i];
        let q = coords[j];
        proof {
            lemma_cross_term_bound(p.0, q.1, q.0, p.1);
            assert(cross_term(coords@, i as int) == p.0 * q.1 - q.0 * p.1);
            assert((i + 1) * 0x8000_0000_0000_0000 <= 0x8000_0000_0000_0000 * 0x8000_0000_0000_0000)
                by (nonlinear_arith)
                requires
                    i + 1 <= 0x8000_0000_0000_0000,
            ;
        }
        let t: i128 = (p.0 as i128) * (q.1 as i128) - (q.0 as i128) * (p.1 as i128);
        area = area + t;
        i = i + 1;
    }
    area
}

/// A feature as a vector tile carries it.
#[derive(Debug)]
pub struct MvtFeature {
    /// The feature id, if any.
    pub id: Option<u64>,
    /// Alternating key and value indices into the layer's tables.
    pub tags: Vec<u32>,
    /// The geometry type number (1 point, 2 line string, 3 polygon).
    pub geom_type: Option<i32>,
    /// The geometry command stream.
    pub geometry: Vec<u32>,
}

/// The polygons built so far, as sequences of rings.
pub open spec fn polygons_view(p: Seq<Vec<Vec<Pixel>>>) -> Seq<Seq<Seq<Pixel>>> {
    p.map_values(|q: Vec<Vec<Pixel>>| seqs_of(q@))
}

/// The interpreter state that the decoder's variables stand for: for
/// polygons, the closed rings are those of the finished polygons followed by
/// those of the polygon being built.
pub open spec fn state_of(
    kind: GeomType,
    cx: i32,
    cy: i32,
    parts: Seq<Vec<Pixel>>,
    polygons: Seq<Vec<Vec<Pixel>>>,
    rings: Seq<Vec<Pixel>>,
    current: Seq<Pixel>,
) -> PxState {
    PxState {
        cx,
        cy,
        done: if kind is Polygon {
            polygons_view(polygons).flatten() + seqs_of(rings)
        } else {
            seqs_of(parts)
        },
        current,
    }
}

/// A copy of a list of pixel positions.
fn copy_pixels(v: &Vec<Pixel>) -> (r: Vec<Pixel>)
    ensures
        r@ == v@,
{
    let mut out: Vec<Pixel> = Vec::new();
    let mut i: usize = 0;
    let n = v.len();
    while i < n
        invariant
            n == v@.len(),
            i <= n,
            out@ == v@.take(i as int),
        decreases n - i,
    {
        out.push(v[i]);
        i = i + 1;
        assert(out@ =~= v@.take(i as int));
    }
    assert(v@.take(n as int) =~= v@);
    out
}

fn invalid_mvt(msg: &str) -> (r: ShapefileError)
    ensures
        r matches ShapefileError::InvalidMvt { reason } && reason@ == msg@,
{
    ShapefileError::InvalidMvt { reason: msg.to_string() }
}

/// Why a command stream cut short inside a command's parameters is refused.
pub open spec fn truncated_reason(kind: GeomType) -> Seq<char> {
    match kind {
        GeomType::Point => "truncated POINT geometry"@,
        GeomType::Linestring => "truncated LINESTRING geometry"@,
        _ => "truncated POLYGON geometry"@,
    }
}

fn invalid_command(prefix: &str, id: u32, suffix: &str) -> (r: ShapefileError)
    ensures
        r is InvalidMvt,
{
    let mut reason = prefix.to_string();
    reason.append(&id.to_string());
    reason.append(suffix);
    ShapefileError::InvalidMvt { reason }
}

/// Runs a feature's command stream; `Err(None)` when the cursor would leave
/// the `i32` range.
fn interpret(feature: &MvtFeature) -> (r: Result<PixelGeometry, Option<ShapefileError>>)
    ensures
        match decode_outcome(geom_type_of(feature.geom_type), feature.geometry@) {
            Outcome::Done(g) => r matches Ok(x) && x@ == g,
            Outcome::Invalid(m) => r matches Err(Some(ShapefileError::InvalidMvt { reason })) && (m is Truncated
                ==> reason@ == truncated_reason(geom_type_of(feature.geom_type))),
            Outcome::Overflow => r matches Err(None),
        },
{
    let kind = geom_type_from(feature.geom_type);
    match kind {
        GeomType::Unknown => {
            return Ok(PixelGeometry::Null);
        },
        _ => {},
    }
    let cmds = &feature.geometry;
    let n = cmds.len();
    let mut i: usize = 0;
    let mut cx: i32 = 0;
    let mut cy: i32 = 0;
    let mut parts: Vec<Vec<Pixel>> = Vec::new();
    let mut polygons: Vec<Vec<Vec<Pixel>>> = Vec::new();
    let mut rings: Vec<Vec<Pixel>> = Vec::new();
    let mut current: Vec<Pixel> = Vec::new();
    let ghost target = run(kind, cmds@, 0, 0, initial_state());
    proof {
        assert(polygons_view(polygons@) =~= Seq::<Seq<Seq<Pixel>>>::empty());
        assert(seqs_of(rings@) =~= Seq::<Seq<Pixel>>::empty());
        assert(seqs_of(parts@) =~= Seq::<Seq<Pixel>>::empty());
        assert(state_of(kind, cx, cy, parts@, polygons@, rings@, current@) == initial_state());
    }
    while i < n
        invariant
            n == cmds@.len(),
            i <= n,
            kind == geom_type_of(feature.geom_type),
            !(kind is Unknown),
            cmds == &feature.geometry,
            target == run(kind, cmds@, 0, 0, initial_state()),
            target == run(kind, cmds@, i as int, 0, state_of(kind, cx, cy, parts@, polygons@, rings@, current@)),
            current@.len() * 2 <= i,
            forall|j: int| 0 <= j < polygons@.len() ==> (#[trigger] polygons@[j])@.len() > 0,
        decreases n - i,
    {
        let ghost st = state_of(kind, cx, cy, parts@, polygons@, rings@, current@);
        let w = cmds[i];
        let id = w % 8;
        let count = w / 8;
        i = i + 1;
        match kind {
            GeomType::Point => {
                if id != 1 {
                    return Err(Some(invalid_command("expected MoveTo in POINT, got cmd_id=", id, "")));
                }
            },
            GeomType::Linestring => {
                if id == 1 {
                    if current.len() > 0 {
                        let part = current;
                        current = Vec::new();
                        parts.push(part);
                        proof {
                            assert(seqs_of(parts@) =~= st.done.push(st.current));
                        }
                    }
                } else if id != 2 {
                    return Err(
                        Some(invalid_command("unexpected command ", id, " in LINESTRING geometry")),
                    );
                }
            },
            _ => {
                if id == 7 {
                    if current.len() > 0 {
                        let first = current[0];
                        current.push(first);
                    }
                    assert(current@ == closed_ring(st.current));
                    let area = shoelace_signed(&current);
                    let ring = current;
                    current = Vec::new();
                    let ghost pv = polygons_view(polygons@);
                    let ghost rv = seqs_of(rings@);
                    if area > 0 {
                        if rings.len() > 0 {
                            let done_rings = rings;
                            rings = Vec::new();
                            polygons.push(done_rings);
                            proof {
                                assert(polygons_view(polygons@) =~= pv.push(rv));
                                pv.lemma_flatten_push(rv);
                            }
                        }
                        rings.push(ring);
                    } else {
                        rings.push(ring);
                    }
                    proof {
                        assert(polygons_view(polygons@).flatten() + seqs_of(rings@) =~= st.done.push(
                            closed_ring(st.current),
                        ));
                    }
                    continue;
                } else if id != 1 && id != 2 {
                    return Err(Some(invalid_command("unexpected command ", id, " in POLYGON geometry")));
                }
            },
        }
        let ghost i1 = i;
        let mut k: u32 = 0;
        while k < count
            invariant
                n == cmds@.len(),
                i1 <= i <= n,
                k <= count,
                kind == geom_type_of(feature.geom_type),
                !(kind is Unknown),
                cmds == &feature.geometry,
                target == run(kind, cmds@, 0, 0, initial_state()),
                target == run(
                    kind,
                    cmds@,
                    i as int,
                    (count - k) as int,
                    state_of(kind, cx, cy, parts@, polygons@, rings@, current@),
                ),
                current@.len() * 2 <= i,
                forall|j: int| 0 <= j < polygons@.len() ==> (#[trigger] polygons@[j])@.len() > 0,
            decreases count - k,
        {
            if n - i < 2 {
                return Err(
                    Some(
                        invalid_mvt(
                            match kind {
                                GeomType::Point => "truncated POINT geometry",
                                GeomType::Linestring => "truncated LINESTRING geometry",
                                _ => "truncated POLYGON geometry",
                            },
                        ),
                    ),
                );
            }
            let dx = decode_zigzag(cmds[i]);
            let dy = decode_zigzag(cmds[i + 1]);
            cx = match cx.checked_add(dx) {
                Some(v) => v,
                None => {
                    return Err(None);
                },
            };
            cy = match cy.checked_add(dy) {
                Some(v) => v,
                None => {
                    return Err(None);
                },
            };
            i = i + 2;
            current.push((cx, cy));
            k = k + 1;
        }
    }
    match kind {
        GeomType::Point => {
            if current.len() == 1 {
                Ok(PixelGeometry::Point(current[0]))
            } else {
                Ok(PixelGeometry::MultiPoint(current))
            }
        },
        GeomType::Linestring => {
            let ghost st = state_of(kind, cx, cy, parts@, polygons@, rings@, current@);
            if current.len() > 0 {
                parts.push(current);
                assert(seqs_of(parts@) =~= st.done.push(st.current));
            }
            Ok(PixelGeometry::Polyline(parts))
        },
        _ => {
            let ghost pv = polygons_view(polygons@);
            if rings.len() > 0 {
                let ghost rv = seqs_of(rings@);
                polygons.push(rings);
                proof {
                    assert(polygons_view(polygons@) =~= pv.push(rv));
                    pv.lemma_flatten_push(rv);
                }
            } else {
                assert(seqs_of(rings@) =~= Seq::<Seq<Pixel>>::empty());
            }
            let ghost all = polygons_view(polygons@);
            let np = polygons.len();
            if np == 0 {
                assert(all =~= Seq::<Seq<Seq<Pixel>>>::empty());
                Ok(PixelGeometry::Null)
            } else if np == 1 {
                let only = polygons.remove(0);
                proof {
                    assert(all =~= seq![seqs_of(only@)]);
                    all.lemma_flatten_one_element();
                }
                Ok(PixelGeometry::Polygon(only))
            } else {
                proof {
                    assert(all.flatten() == all.first() + all.drop_first().flatten());
                    assert(all.first().len() > 0);
                }
                let mut all_rings: Vec<Vec<Pixel>> = Vec::new();
                let mut j: usize = 0;
                while j < np
                    invariant
                        np == polygons@.len(),
                        all == polygons_view(polygons@),
                        j <= np,
                        seqs_of(all_rings@) == all.take(j as int).flatten(),
                    decreases np - j,
                {
                    let ghost before = seqs_of(all_rings@);
                    let mut k: usize = 0;
                    let m = polygons[j].len();
                    while k < m
                        invariant
                            np == polygons@.len(),
                            j < np,
                            m == polygons@[j as int]@.len(),
                            k <= m,
                            seqs_of(all_rings@) == before + seqs_of(polygons@[j as int]@).take(k as int),
                        decreases m - k,
                    {
                        let ghost prev = seqs_of(all_rings@);
                        let c = copy_pixels(&polygons[j][k]);
                        all_rings.push(c);
                        proof {
                            assert(seqs_of(all_rings@) =~= prev.push(c@));
                            assert(seqs_of(polygons@[j as int]@)[k as int] == c@);
                            assert(seqs_of(polygons@[j as int]@).take(k + 1) =~= seqs_of(
                                polygons@[j as int]@,
                            ).take(k as int).push(c@));
                        }
                        k = k + 1;
                    }
                    proof {
                        assert(seqs_of(polygons@[j as int]@).take(m as int) =~= seqs_of(
                            polygons@[j as int]@,
                        ));
                        assert(all.take(j + 1) =~= all.take(j as int).push(all[j as int]));
                        all.take(j as int).lemma_flatten_push(all[j as int]);
                    }
                    j = j + 1;
                }
                proof {
                    assert(all.take(np as int) =~= all);
                }
                Ok(PixelGeometry::Polygon(all_rings))
            }
        },
    }
}

/// Decodes a feature's command stream into its geometry in tile pixel space:
/// MoveTo (1) and LineTo (2) move a cursor by ZigZag-coded deltas, ClosePath
/// (7) closes a polygon ring; polygon rings are grouped into polygons by
/// their winding, and all closed rings come out as one polygon.
pub fn decode_geometry(feature: &MvtFeature) -> (r: Result<PixelGeometry, ShapefileError>)
    requires
        !(decode_outcome(geom_type_of(feature.geom_type), feature.geometry@) is Overflow),
    ensures
        decode_outcome(geom_type_of(feature.geom_type), feature.geometry@) matches Outcome::Done(g)
            ==> (r matches Ok(x) && x@ == g),
        decode_outcome(geom_type_of(feature.geom_type), feature.geometry@) is Invalid ==> (r matches Err(
            e,
        ) && e is InvalidMvt),
        decode_outcome(geom_type_of(feature.geom_type), feature.geometry@) matches Outcome::Invalid(
            Malformed::Truncated,
        ) ==> (r matches Err(ShapefileError::InvalidMvt { reason }) && reason@ == truncated_reason(
            geom_type_of(feature.geom_type),
        )),
{
    match interpret(feature) {
        Ok(g) => Ok(g),
        Err(Some(e)) => Err(e),
        Err(None) => Ok(PixelGeometry::Null),
    }
}

/// Whether decoding the feature's commands moves the cursor out of the `i32`
/// range, where `decode_geometry` cannot be called.
pub fn geometry_overflows(feature: &MvtFeature) -> (r: bool)
    ensures
        r == (decode_outcome(geom_type_of(feature.geom_type), feature.geometry@) is Overflow),
{
    match interpret(feature) {
        Err(None) => true,
        _ => false,
    }
}

// ---------------------------------------------------------------------------
// Attribute tables
// ---------------------------------------------------------------------------

/// An attribute value as a vector tile carries it; floating-point values are
/// held as their IEEE-754 bit patterns.
#[derive(Debug)]
pub struct MvtValue {
    pub string_value: Option<String>,
    /// Bits of a binary32 value.
    pub float_value: Option<u32>,
    /// Bits of a binary64 value.
    pub double_value: Option<u64>,
    pub int_value: Option<i64>,
    pub uint_value: Option<u64>,
    pub sint_value: Option<i64>,
    pub bool_value: Option<bool>,
}

/// The attribute value a tile value stands for: the first of string, double,
/// float, int, uint, sint and bool that is set, `Null` when none is.
pub open spec fn value_attribute(v: MvtValue) -> AttributeValue {
    if v.string_value is Some {
        AttributeValue::Text(v.string_value->Some_0)
    } else if v.double_value is Some {
        AttributeValue::Numeric(Number::Bits(v.double_value->Some_0))
    } else if v.float_value is Some {
        AttributeValue::Numeric(Number::Single(v.float_value->Some_0))
    } else if v.int_value is Some {
        AttributeValue::Numeric(Number::Integer(v.int_value->Some_0 as i128))
    } else if v.uint_value is Some {
        AttributeValue::Numeric(Number::Integer(v.uint_value->Some_0 as i128))
    } else if v.sint_value is Some {
        AttributeValue::Numeric(Number::Integer(v.sint_value->Some_0 as i128))
    } else if v.bool_value is Some {
        AttributeValue::Logical(v.bool_value->Some_0)
    } else {
        AttributeValue::Null
    }
}

/// Converts a tile value to an attribute value.
pub fn mvt_value_to_attribute(val: &MvtValue) -> (r: AttributeValue)
    ensures
        r == value_attribute(*val),
{
    if let Some(s) = &val.string_value {
        return AttributeValue::Text(s.clone());
    }
    if let Some(v) = val.double_value {
        return AttributeValue::Numeric(Number::Bits(v));
    }
    if let Some(v) = val.float_value {
        return AttributeValue::Numeric(Number::Single(v));
    }
    if let Some(v) = val.int_value {
        return AttributeValue::Numeric(Number::Integer(v as i128));
    }
    if let Some(v) = val.uint_value {
        return AttributeValue::Numeric(Number::Integer(v as i128));
    }
    if let Some(v) = val.sint_value {
        return AttributeValue::Numeric(Number::Integer(v as i128));
    }
    if let Some(v) = val.bool_value {
        return AttributeValue::Logical(v);
    }
    AttributeValue::Null
}

/// A tile value that carries exactly one kind of value converts to that
/// value: a string to text, a double or float to its bits, a signed,
/// unsigned or zigzag integer to that integer, a boolean to a logical; a
/// value carrying none converts to `Null`.
pub proof fn lemma_single_value_converts(v: MvtValue)
    ensures
        ({
            let none_but = |s: bool, d: bool, f: bool, i: bool, u: bool, z: bool, b: bool|
                (v.string_value is Some) == s && (v.double_value is Some) == d && (v.float_value is Some)
                    == f && (v.int_value is Some) == i && (v.uint_value is Some) == u && (v.sint_value is Some)
                    == z && (v.bool_value is Some) == b;
            &&& none_but(true, false, false, false, false, false, false) ==> value_attribute(v)
                == AttributeValue::Text(v.string_value->Some_0)
            &&& none_but(false, true, false, false, false, false, false) ==> value_attribute(v)
                == AttributeValue::Numeric(Number::Bits(v.double_value->Some_0))
            &&& none_but(false, false, true, false, false, false, false) ==> value_attribute(v)
                == AttributeValue::Numeric(Number::Single(v.float_value->Some_0))
            &&& none_but(false, false, false, true, false, false, false) ==> (value_attribute(v) matches AttributeValue::Numeric(
                Number::Integer(n),
            ) && n == v.int_value->Some_0)
            &&& none_but(false, false, false, false, true, false, false) ==> (value_attribute(v) matches AttributeValue::Numeric(
                Number::Integer(n),
            ) && n == v.uint_value->Some_0)
            &&& none_but(false, false, false, false, false, true, false) ==> (value_attribute(v) matches AttributeValue::Numeric(
                Number::Integer(n),
            ) && n == v.sint_value->Some_0)
            &&& none_but(false, false, false, false, false, false, true) ==> value_attribute(v)
                == AttributeValue::Logical(v.bool_value->Some_0)
            &&& none_but(false, false, false, false, false, false, false) ==> value_attribute(v)
                is Null
        }),
{
}

/// One layer of a tile.
#[derive(Debug)]
pub struct MvtLayer {
    pub version: u32,
    pub name: String,
    pub features: Vec<MvtFeature>,
    pub keys: Vec<String>,
    pub values: Vec<MvtValue>,
    pub extent: Option<u32>,
}

/// A decoded tile: its layers.
#[derive(Debug)]
pub struct MvtTile {
    pub layers: Vec<MvtLayer>,
}

/// The attributes that the first `p` tag pairs give: each pair of a key
/// index and a value index sets that key to that value, later pairs
/// replacing earlier ones; a pair with an index out of range is skipped.
pub open spec fn tag_pairs_map(tags: Seq<u32>, keys: Seq<String>, values: Seq<MvtValue>, p: int) -> Map<
    Seq<char>,
    AttributeValue,
>
    decreases p,
{
    if p <= 0 {
        Map::empty()
    } else {
        let m = tag_pairs_map(tags, keys, values, p - 1);
        let k = tags[2 * p - 2] as int;
        let v = tags[2 * p - 1] as int;
        if k < keys.len() && v < values.len() {
            m.insert(keys[k]@, value_attribute(values[v]))
        } else {
            m
        }
    }
}

/// The attributes a feature's tags give with its layer's tables.
pub open spec fn feature_attributes(feature: MvtFeature, layer: MvtLayer) -> Map<Seq<char>, AttributeValue> {
    tag_pairs_map(feature.tags@, layer.keys@, layer.values@, (feature.tags@.len() / 2) as int)
}

/// Decodes a feature's tags against the layer's key and value tables.
pub fn decode_attributes(feature: &MvtFeature, layer: &MvtLayer) -> (r: Attributes)
    ensures
        r@ == feature_attributes(*feature, *layer),
{
    let mut attrs = Attributes::new();
    let tags = &feature.tags;
    let n = tags.len();
    let mut t: usize = 0;
    while t + 1 < n
        invariant
            n == tags@.len(),
            tags == &feature.tags,
            t % 2 == 0,
            t <= n,
            attrs@ == tag_pairs_map(tags@, layer.keys@, layer.values@, (t / 2) as int),
        decreases n - t,
    {
        let key_idx = tags[t] as usize;
        let val_idx = tags[t + 1] as usize;
        t = t + 2;
        if key_idx < layer.keys.len() && val_idx < layer.values.len() {
            let key = layer.keys[key_idx].clone();
            let val = mvt_value_to_attribute(&layer.values[val_idx]);
            attrs.insert(key, val);
        }
    }
    assert((t / 2) as int == (n / 2) as int);
    attrs
}

// ---------------------------------------------------------------------------
// The reader
// ---------------------------------------------------------------------------

/// One decoded feature: its geometry in the tile's pixel space, the extent
/// of that space, and its attributes (with the layer name under `_layer`).
#[derive(Debug)]
pub struct MvtRecord {
    /// 1-based record number.
    pub record_number: u32,
    pub geometry: PixelGeometry,
    /// Pixels per tile side.
    pub extent: u32,
    pub attributes: Attributes,
}

/// Every feature of the tile in order, each with the layer holding it.
pub open spec fn tile_features(layers: Seq<MvtLayer>) -> Seq<(MvtLayer, MvtFeature)>
    decreases layers.len(),
{
    if layers.len() == 0 {
        Seq::empty()
    } else {
        let l = layers.last();
        tile_features(layers.drop_last()) + l.features@.map_values(|f: MvtFeature| (l, f))
    }
}

/// The decoding of a feature.
pub open spec fn feature_outcome(f: MvtFeature) -> Outcome<PixelGeometryView> {
    decode_outcome(geom_type_of(f.geom_type), f.geometry@)
}

/// Record `k` of a tile is what feature `k` decodes to.
pub open spec fn record_matches(rec: MvtRecord, k: int, lf: (MvtLayer, MvtFeature)) -> bool {
    &&& rec.record_number == k + 1
    &&& feature_outcome(lf.1) == Outcome::Done(rec.geometry@)
    &&& rec.extent == (if lf.0.extent is Some {
        lf.0.extent->Some_0
    } else {
        4096
    })
    &&& rec.attributes@ == feature_attributes(lf.1, lf.0).insert(
        "_layer"@,
        AttributeValue::Text(lf.0.name),
    )
}

/// A tile that can be read without a panic: no feature's cursor leaves the
/// `i32` range, and the record numbers fit a `u32`.
pub open spec fn tile_decodable(tile: MvtTile) -> bool {
    &&& tile_features(tile.layers@).len() < u32::MAX
    &&& forall|k: int|
        0 <= k < tile_features(tile.layers@).len() ==> !(feature_outcome(
            #[trigger] tile_features(tile.layers@)[k].1,
        ) is Overflow)
}

/// A reader over the decoded features of one tile.
pub struct MvtReader {
    tile: TileCoord,
    records: Vec<MvtRecord>,
    layer_names_list: Vec<String>,
}

impl MvtReader {
    /// The records, in tile order.
    pub closed spec fn spec_records(&self) -> Seq<MvtRecord> {
        self.records@
    }

    /// The layer names, in tile order.
    pub closed spec fn spec_layer_names(&self) -> Seq<String> {
        self.layer_names_list@
    }

    /// The tile coordinate.
    pub closed spec fn spec_tile(&self) -> TileCoord {
        self.tile
    }

    /// Reads every feature of every layer, in order, numbering the records
    /// from 1; fails on the first feature whose geometry is malformed.
    pub fn from_tile(tile: &MvtTile, coord: TileCoord) -> (r: Result<MvtReader, ShapefileError>)
        requires
            tile_decodable(*tile),
        ensures
            r is Err <==> exists|k: int|
                0 <= k < tile_features(tile.layers@).len() && feature_outcome(
                    #[trigger] tile_features(tile.layers@)[k].1,
                ) is Invalid,
            r matches Err(e) ==> e is InvalidMvt,
            r matches Ok(rd) ==> rd.spec_tile() == coord && rd.spec_records().len()
                == tile_features(tile.layers@).len() && (forall|k: int|
                0 <= k < rd.spec_records().len() ==> record_matches(
                    #[trigger] rd.spec_records()[k],
                    k,
                    tile_features(tile.layers@)[k],
                )) && rd.spec_layer_names().len() == tile.layers@.len() && (forall|j: int|
                0 <= j < tile.layers@.len() ==> (#[trigger] rd.spec_layer_names()[j])@
                    == tile.layers@[j].name@),
    {
        let mut records: Vec<MvtRecord> = Vec::new();
        let mut names: Vec<String> = Vec::new();
        let mut record_number: u32 = 1;
        let nl = tile.layers.len();
        let mut li: usize = 0;
        let ghost all = tile_features(tile.layers@);
        while li < nl
            invariant
                nl == tile.layers@.len(),
                li <= nl,
                all == tile_features(tile.layers@),
                tile_decodable(*tile),
                records@.len() == tile_features(tile.layers@.take(li as int)).len(),
                record_number == records@.len() + 1,
                tile_features(tile.layers@.take(li as int)).len() <= all.len(),
                forall|k: int|
                    0 <= k < records@.len() ==> record_matches(
                        #[trigger] records@[k],
                        k,
                        tile_features(tile.layers@.take(li as int))[k],
                    ),
                forall|k: int|
                    0 <= k < records@.len() ==> !(feature_outcome(
                        #[trigger] tile_features(tile.layers@.take(li as int))[k].1,
                    ) is Invalid),
                names@.len() == li,
                forall|j: int| 0 <= j < li ==> (#[trigger] names@[j])@ == tile.layers@[j].name@,
            decreases nl - li,
        {
            let layer = &tile.layers[li];
            let ghost before = tile_features(tile.layers@.take(li as int));
            proof {
                assert(tile.layers@.take(li + 1).drop_last() =~= tile.layers@.take(li as int));
                assert(tile.layers@.take(li + 1).last() == *layer);
                lemma_tile_features_prefix(tile.layers@, li + 1);
            }
            let ghost here = tile_features(tile.layers@.take(li + 1));
            names.push(layer.name.clone());
            let extent = match layer.extent {
                Some(e) => e,
                None => 4096,
            };
            let nf = layer.features.len();
            let mut fi: usize = 0;
            while fi < nf
                invariant
                    nl == tile.layers@.len(),
                    li < nl,
                    layer == &tile.layers@[li as int],
                    nf == layer.features@.len(),
                    fi <= nf,
                    all == tile_features(tile.layers@),
                    tile_decodable(*tile),
                    here == before + layer.features@.map_values(|f: MvtFeature| (*layer, f)),
                    here.len() <= all.len(),
                    forall|k: int| 0 <= k < here.len() ==> #[trigger] here[k] == all[k],
                    extent == (if layer.extent is Some {
                        layer.extent->Some_0
                    } else {
                        4096
                    }),
                    records@.len() == before.len() + fi,
                    record_number == records@.len() + 1,
                    forall|k: int|
                        0 <= k < records@.len() ==> record_matches(#[trigger] records@[k], k, here[k]),
                    forall|k: int|
                        0 <= k < records@.len() ==> !(feature_outcome(#[trigger] here[k].1) is Invalid),
                decreases nf - fi,
            {
                let feature = &layer.features[fi];
                let ghost k = before.len() + fi;
                proof {
                    assert(here[k] == (*layer, *feature));
                    assert(all[k] == here[k]);
                    assert(!(feature_outcome(all[k].1) is Overflow));
                }
                let geometry = match decode_geometry(feature) {
                    Ok(g) => g,
                    Err(e) => {
                        proof {
                            assert(feature_outcome(all[k].1) is Invalid);
                        }
                        return Err(e);
                    },
                };
                let mut attributes = decode_attributes(feature, layer);
                attributes.insert("_layer".to_string(), AttributeValue::Text(layer.name.clone()));
                let ghost rec_k = MvtRecord { record_number, geometry, extent, attributes };
                records.push(MvtRecord { record_number, geometry, extent, attributes });
                record_number = record_number + 1;
                fi = fi + 1;
            }
            li = li + 1;
        }
        proof {
            assert(tile.layers@.take(nl as int) =~= tile.layers@);
        }
        Ok(MvtReader { tile: coord, records, layer_names_list: names })
    }
}

/// The records that a list of references points to.
pub open spec fn derefs(s: Seq<&MvtRecord>) -> Seq<MvtRecord> {
    s.map_values(|r: &MvtRecord| *r)
}

/// The elements of `s` that satisfy `p`, in order.
pub open spec fn keep<T>(s: Seq<T>, p: spec_fn(T) -> bool) -> Seq<T>
    decreases s.len(),
{
    if s.len() == 0 {
        Seq::empty()
    } else {
        let r = keep(s.drop_last(), p);
        if p(s.last()) {
            r.push(s.last())
        } else {
            r
        }
    }
}

/// The record's `_layer` attribute is the text `layer`.
pub open spec fn in_layer(rec: MvtRecord, layer: Seq<char>) -> bool {
    &&& rec.attributes@.contains_key("_layer"@)
    &&& rec.attributes@["_layer"@] matches AttributeValue::Text(t)
    &&& t@ == layer
}

/// The record has `field`, and its value is a text starting with `prefix`.
pub open spec fn field_starts_with(attrs: Map<Seq<char>, AttributeValue>, field: Seq<char>, prefix: Seq<char>) -> bool {
    attrs.contains_key(field) && attrs[field].spec_starts_with(prefix)
}

/// The numbers among the values of `field`, record by record.
pub open spec fn numbers_of(recs: Seq<MvtRecord>, field: Seq<char>) -> Seq<Number>
    decreases recs.len(),
{
    if recs.len() == 0 {
        Seq::empty()
    } else {
        let r = numbers_of(recs.drop_last(), field);
        let a = recs.last().attributes@;
        if a.contains_key(field) && a[field] is Numeric {
            r.push(a[field]->Numeric_0)
        } else {
            r
        }
    }
}

/// `v` is a text equal to one of `names`.
pub open spec fn text_in(v: AttributeValue, names: Seq<String>) -> bool {
    match v {
        AttributeValue::Text(t) => exists|i: int| 0 <= i < names.len() && (#[trigger] names[i])@ == t@,
        _ => false,
    }
}

/// A filter with layer names lets a record through exactly when its
/// `_layer` attribute is text equal to one of the names, wherever that name
/// stands in the list; a filter without names lets every record through.
pub proof fn lemma_layer_filter_accepts_any_listed_name(f: LayerFilter, attrs: Map<Seq<char>, AttributeValue>)
    ensures
        f.layer_names is None ==> f.spec_accepts_layer(attrs),
        f.layer_names matches Some(names) ==> (f.spec_accepts_layer(attrs) <==> (attrs.contains_key("_layer"@)
            && (attrs["_layer"@] matches AttributeValue::Text(t) && exists|i: int|
            0 <= i < names@.len() && #[trigger] names@[i]@ == t@))),
{

}

impl LayerFilter {
    /// Whether the layer-name part of the filter lets a record with these
    /// attributes through: no names given, or its `_layer` text is one of them.
    pub open spec fn spec_accepts_layer(&self, attrs: Map<Seq<char>, AttributeValue>) -> bool {
        match self.layer_names {
            None => true,
            Some(names) => attrs.contains_key("_layer"@) && text_in(attrs["_layer"@], names@),
        }
    }

    /// The layer-name part of the filter.
    pub fn accepts_layer(&self, attrs: &Attributes) -> (r: bool)
        ensures
            r == self.spec_accepts_layer(attrs@),
    {
        match &self.layer_names {
            None => true,
            Some(names) => match attrs.get("_layer") {
                Some(AttributeValue::Text(t)) => {
                    let n = names.len();
                    let mut i: usize = 0;
                    while i < n
                        invariant
                            n == names@.len(),
                            i <= n,
                            attrs@.contains_key("_layer"@),
                            attrs@["_layer"@] == AttributeValue::Text(*t),
                            self.layer_names == Some(*names),
                            forall|j: int| 0 <= j < i ==> (#[trigger] names@[j])@ != t@,
                        decreases n - i,
                    {
                        if str_eq(names[i].as_str(), t.as_str()) {
                            assert(names@[i as int]@ == t@);
                            return true;
                        }
                        i = i + 1;
                    }
                    false
                },
                _ => false,
            },
        }
    }
}

impl MvtReader {
    /// Returns the tile coordinate used to decode this tile.
    pub fn tile(&self) -> (r: &TileCoord)
        ensures
            *r == self.spec_tile(),
    {
        &self.tile
    }

    /// Returns the number of decoded records.
    pub fn len(&self) -> (r: usize)
        ensures
            r == self.spec_records().len(),
    {
        self.records.len()
    }

    /// Returns `true` if there are no records.
    pub fn is_empty(&self) -> (r: bool)
        ensures
            r == (self.spec_records().len() == 0),
    {
        self.records.len() == 0
    }

    /// Returns the names of all layers found in the tile.
    pub fn layer_names(&self) -> (r: &[String])
        ensures
            r@ == self.spec_layer_names(),
    {
        self.layer_names_list.as_slice()
    }

    /// Returns all records, or at most `limit` records if specified.
    pub fn records(&self, limit: Option<usize>) -> (r: Vec<&MvtRecord>)
        ensures
            derefs(r@) == self.spec_records().take(
                match limit {
                    Some(n) => if n < self.spec_records().len() {
                        n as int
                    } else {
                        self.spec_records().len() as int
                    },
                    None => self.spec_records().len() as int,
                },
            ),
    {
        let len = self.records.len();
        let m = match limit {
            Some(n) => if n < len {
                n
            } else {
                len
            },
            None => len,
        };
        let mut out: Vec<&MvtRecord> = Vec::new();
        let mut i: usize = 0;
        while i < m
            invariant
                len == self.records@.len(),
                m <= len,
                i <= m,
                derefs(out@) == self.records@.take(i as int),
            decreases m - i,
        {
            let ghost before = derefs(out@);
            out.push(&self.records[i]);
            assert(derefs(out@) =~= before.push(self.records@[i as int]));
            i = i + 1;
            assert(derefs(out@) =~= self.records@.take(i as int));
        }
        out
    }

    /// Returns every record, in order.
    pub fn iter_records(&self) -> (r: Vec<&MvtRecord>)
        ensures
            derefs(r@) == self.spec_records(),
    {
        let r = self.records(None);
        assert(self.spec_records().take(self.spec_records().len() as int) =~= self.spec_records());
        r
    }

    /// Returns the record at the given index, or `None` if out of bounds.
    pub fn get(&self, index: usize) -> (r: Option<&MvtRecord>)
        ensures
            index < self.spec_records().len() ==> r == Some(&self.spec_records()[index as int]),
            index >= self.spec_records().len() ==> r is None,
    {
        if index < self.records.len() {
            Some(&self.records[index])
        } else {
            None
        }
    }

    /// Filters records by layer name (checks the `_layer` attribute).
    pub fn filter_by_layer(&self, layer: &str) -> (r: Vec<&MvtRecord>)
        ensures
            derefs(r@) == keep(self.spec_records(), |rec: MvtRecord| in_layer(rec, layer@)),
    {
        let ghost p = |rec: MvtRecord| in_layer(rec, layer@);
        let n = self.records.len();
        let mut out: Vec<&MvtRecord> = Vec::new();
        let mut i: usize = 0;
        while i < n
            invariant
                n == self.records@.len(),
                i <= n,
                p == (|rec: MvtRecord| in_layer(rec, layer@)),
                derefs(out@) == keep(self.records@.take(i as int), p),
            decreases n - i,
        {
            let rec = &self.records[i];
            let hit = match rec.attributes.get("_layer") {
                Some(AttributeValue::Text(t)) => str_eq(t.as_str(), layer),
                _ => false,
            };
            proof {
                assert(self.records@.take(i + 1).drop_last() =~= self.records@.take(i as int));
                assert(self.records@.take(i + 1).last() == *rec);
                assert(hit == p(*rec));
            }
            let ghost before = derefs(out@);
            if hit {
                out.push(rec);
                assert(derefs(out@) =~= before.push(*rec));
            }
            i = i + 1;
        }
        assert(self.records@.take(n as int) =~= self.records@);
        out
    }

    /// Filters records where a Text attribute starts with the given prefix.
    pub fn filter_by_attribute_starts_with(&self, field: &str, prefix: &str) -> (r: Vec<&MvtRecord>)
        ensures
            derefs(r@) == keep(
                self.spec_records(),
                |rec: MvtRecord| field_starts_with(rec.attributes@, field@, prefix@),
            ),
    {
        let ghost p = |rec: MvtRecord| field_starts_with(rec.attributes@, field@, prefix@);
        let n = self.records.len();
        let mut out: Vec<&MvtRecord> = Vec::new();
        let mut i: usize = 0;
        while i < n
            invariant
                n == self.records@.len(),
                i <= n,
                p == (|rec: MvtRecord| field_starts_with(rec.attributes@, field@, prefix@)),
                derefs(out@) == keep(self.records@.take(i as int), p),
            decreases n - i,
        {
            let rec = &self.records[i];
            let hit = match rec.attributes.get(field) {
                Some(v) => v.starts_with(prefix),
                None => false,
            };
            proof {
                assert(self.records@.take(i + 1).drop_last() =~= self.records@.take(i as int));
                assert(self.records@.take(i + 1).last() == *rec);
                assert(hit == p(*rec));
            }
            let ghost before = derefs(out@);
            if hit {
                out.push(rec);
                assert(derefs(out@) =~= before.push(*rec));
            }
            i = i + 1;
        }
        assert(self.records@.take(n as int) =~= self.records@);
        out
    }

    /// The numbers that `describe` summarises: fails with `FieldNotFound`
    /// when no record has `field`, and with `DescribeOnNonNumericField` when
    /// none of its values is a number; otherwise the numeric values of
    /// `field`, record by record.
    pub fn numeric_values(&self, field: &str) -> (r: Result<Vec<Number>, ShapefileError>)
        ensures
            !(exists|k: int|
                0 <= k < self.spec_records().len() && (#[trigger] self.spec_records()[k]).attributes@.contains_key(
                    field@,
                )) ==> (r matches Err(e) && e is FieldNotFound),
            (exists|k: int|
                0 <= k < self.spec_records().len() && (#[trigger] self.spec_records()[k]).attributes@.contains_key(
                    field@,
                )) ==> match r {
                Ok(v) => v@ == numbers_of(self.spec_records(), field@) && v@.len() > 0,
                Err(e) => e is DescribeOnNonNumericField && numbers_of(
                    self.spec_records(),
                    field@,
                ).len() == 0,
            },
    {
        let n = self.records.len();
        let mut found = false;
        let mut values: Vec<Number> = Vec::new();
        let mut i: usize = 0;
        while i < n
            invariant
                n == self.records@.len(),
                i <= n,
                found <==> exists|k: int| 0 <= k < i && (#[trigger] self.records@[k]).attributes@.contains_key(field@),
                values@ == numbers_of(self.records@.take(i as int), field@),
            decreases n - i,
        {
            let rec = &self.records[i];
            proof {
                assert(self.records@.take(i + 1).drop_last() =~= self.records@.take(i as int));
                assert(self.records@.take(i + 1).last() == *rec);
            }
            match rec.attributes.get(field) {
                Some(v) => {
                    found = true;
                    match v {
                        AttributeValue::Numeric(x) => {
                            values.push(x.clone());
                        },
                        _ => {},
                    }
                },
                None => {},
            }
            i = i + 1;
        }
        assert(self.records@.take(n as int) =~= self.records@);
        if !found {
            return Err(ShapefileError::FieldNotFound(field.to_string()));
        }
        if values.len() == 0 {
            return Err(
                ShapefileError::DescribeOnNonNumericField {
                    field: field.to_string(),
                    field_type: "non-numeric".to_string(),
                },
            );
        }
        Ok(values)
    }
}

/// The features of a prefix of the layers come first among all features.
proof fn lemma_tile_features_prefix(layers: Seq<MvtLayer>, j: int)
    requires
        0 <= j <= layers.len(),
    ensures
        tile_features(layers.take(j)).len() <= tile_features(layers).len(),
        forall|k: int|
            0 <= k < tile_features(layers.take(j)).len() ==> #[trigger] tile_features(layers.take(j))[k]
                == tile_features(layers)[k],
    decreases layers.len() - j,
{
    if j < layers.len() {
        lemma_tile_features_prefix(layers, j + 1);
        let t = layers.take(j + 1);
        assert(t.drop_last() =~= layers.take(j));
        let l = t.last();
        assert(tile_features(t) == tile_features(layers.take(j)) + l.features@.map_values(
            |f: MvtFeature| (l, f),
        ));
        assert forall|k: int| 0 <= k < tile_features(layers.take(j)).len() implies #[trigger] tile_features(
            layers.take(j),
        )[k] == tile_features(layers)[k] by {
            assert(tile_features(t)[k] == tile_features(layers.take(j))[k]);
        }
    } else {
        assert(layers.take(j) =~= layers);
    }
}

} // verus!
