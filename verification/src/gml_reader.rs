//! GML (JPGIS 2.1 / KSJ profile): feature members with point, curve and
//! surface geometries, their attributes, and the document envelope.
use crate::error::ShapefileError;
use crate::models::attribute::{AttributeValue, Attributes};
use crate::models::bbox::BoundingBox;
use crate::models::geometry::{
    clone_points, parts_view, rings_view, Geometry, GeometryView, Point, Polygon, Polyline, Ring,
};
use crate::models::record::{
    collect_numeric_values, limited, record_derefs, record_numbers, records_starting_with,
    some_record_has, take_records, ShapeRecord,
};
use crate::mvt_reader::field_starts_with;
use crate::mvt_reader::keep;
use crate::number::{float_literal, is_float_literal, Number};
use crate::text::{
    chars_of, char_seqs, replace_char, replace_chars, spec_utf8_lossy, split_chars_on,
    split_on, split_whitespace_chars, string_from_chars, trim_chars, trim_seq,
    utf8_to_string_lossy, ws_tokens,
};
use crate::gml_model::{
    attr_pairs, attrs_v, coords_v, element_name, empty_step, end_step, envelope_end, geometry_end,
    last_srs, opt_str, polys_v, pos_list_v, pos_v, pv, pvs, records_v, start_step, take_srs,
    text_step, value_v, vecs_v, GmlModel, GmlEvent, GmlEventV, GmlRun, Refusal, initial_model, run_events,
    events_v,
};
use vstd::prelude::*;
use vstd::slice::slice_subrange;
use vstd::string::StringSliceAdditionalSpecFns;
use quick_xml::events::Event;
use self::XmlToken::{Empty, End, Eof, Error, Skip, Start, Text};

verus! {

// ---------------------------------------------------------------------------
// XML events (quick-xml)
// ---------------------------------------------------------------------------

#[verifier::external_type_specification]
#[verifier::external_body]
#[verifier::reject_recursive_types(R)]
pub struct ExXmlReader<R>(quick_xml::Reader<R>);

/// What one read of quick-xml's reader yields, as plain values.
pub enum XmlToken {
    /// A start tag: its qualified name, and its attributes' keys and values.
    Start(Vec<u8>, Vec<(Vec<u8>, Vec<u8>)>),
    /// A self-closing tag: its qualified name.
    Empty(Vec<u8>),
    /// Character data, with escapes resolved.
    Text(String),
    /// An end tag: its qualified name.
    End(Vec<u8>),
    /// The read, or the resolving of a text's escapes, failed: the message.
    Error(String),
    /// An event the GML reader ignores (declaration, comment, CDATA,
    /// processing instruction, doctype).
    Skip,
    /// The end of the document.
    Eof,
}

/// The value of a read.
pub enum XmlTokenV {
    Event(GmlEventV),
    Skip,
    Eof,
}

impl View for XmlToken {
    type V = XmlTokenV;

    open spec fn view(&self) -> XmlTokenV {
        match self {
            XmlToken::Start(t, a) => XmlTokenV::Event(GmlEventV::Start(t@, attr_pairs(a@))),
            XmlToken::Empty(t) => XmlTokenV::Event(GmlEventV::Empty(t@)),
            XmlToken::Text(x) => XmlTokenV::Event(GmlEventV::Text(x@)),
            XmlToken::End(t) => XmlTokenV::Event(GmlEventV::End(t@)),
            XmlToken::Error(m) => XmlTokenV::Event(GmlEventV::XmlError(m@)),
            XmlToken::Skip => XmlTokenV::Skip,
            XmlToken::Eof => XmlTokenV::Eof,
        }
    }
}

/// What the `k`-th read (counting from 0) of quick-xml's reader over `doc`,
/// configured to trim whitespace around text, yields.
pub uninterp spec fn spec_xml_token(doc: Seq<u8>, k: nat) -> XmlTokenV;

/// quick-xml's reader over a document, with the document and the number of
/// reads made so far.
pub struct XmlTokens<'a> {
    reader: quick_xml::Reader<&'a [u8]>,
    doc: Ghost<Seq<u8>>,
    reads: Ghost<nat>,
}

impl<'a> XmlTokens<'a> {
    /// The document being read.
    pub closed spec fn doc(&self) -> Seq<u8> {
        self.doc@
    }

    /// How many reads were made.
    pub closed spec fn reads(&self) -> nat {
        self.reads@
    }
}

/// `quick_xml::Reader::from_reader` over the document, configured to trim
/// whitespace around text (`Config::trim_text(true)`); no read made yet.
#[verifier::external_body]
fn xml_tokens<'a>(xml: &'a [u8]) -> (r: XmlTokens<'a>)
    ensures
        r.doc() == xml@,
        r.reads() == 0,
{
    let mut reader = quick_xml::Reader::from_reader(xml);
    reader.config_mut().trim_text(true);
    XmlTokens { reader, doc: Ghost(xml@), reads: Ghost(0) }
}

/// `quick_xml::Reader::read_event`, its event converted to plain values:
/// a start or empty tag's qualified name (`BytesStart::name`) and, for a
/// start tag, its well-formed attributes' keys and values in document order
/// (`BytesStart::attributes`, malformed ones skipped as `flatten` skips
/// them); a text's content with escapes resolved (`BytesText::unescape`),
/// or that error's message; an end tag's name; the reader's error message.
/// The reader is deterministic, so what the next read yields is a function
/// of the document and the number of reads before it, and is named.
#[verifier::external_body]
fn next_token(t: &mut XmlTokens) -> (r: XmlToken)
    ensures
        final(t).doc() == old(t).doc(),
        final(t).reads() == old(t).reads() + 1,
        r@ == spec_xml_token(old(t).doc(), old(t).reads()),
{
    match t.reader.read_event() {
        Ok(Event::Start(e)) => Start(
            e.name().0.into(),
            e.attributes().flatten().map(|a| (a.key.0.into(), a.value.to_vec())).collect()
        ),
        Ok(Event::Empty(e)) => Empty(e.name().0.into()),
        Ok(Event::Text(e)) => e.unescape().map_or_else(|err| Error(err.to_string()), |x| Text(x.into_owned())),
        Ok(Event::End(e)) => End(e.name().0.into()),
        Ok(Event::Eof) => Eof,
        Ok(_) => Skip,
        Err(err) => Error(err.to_string())
    }
}

// ---------------------------------------------------------------------------
// Names
// ---------------------------------------------------------------------------

/// The index of the first `b` in `tag` at or after `i`.
pub open spec fn first_byte_from(tag: Seq<u8>, b: u8, i: int) -> Option<int>
    decreases tag.len() - i,
{
    if i < 0 || i >= tag.len() {
        None
    } else if tag[i] == b {
        Some(i)
    } else {
        first_byte_from(tag, b, i + 1)
    }
}

/// The index of the first `:` in a qualified name.
pub open spec fn colon_index(tag: Seq<u8>) -> Option<int> {
    first_byte_from(tag, 0x3a, 0)
}

/// The local part of a qualified name: what follows its first `:`, or the
/// whole name.
pub open spec fn spec_local_name(tag: Seq<u8>) -> Seq<u8> {
    match colon_index(tag) {
        Some(p) => tag.subrange(p + 1, tag.len() as int),
        None => tag,
    }
}

/// The prefix of a qualified name: what precedes its first `:`, if any.
pub open spec fn spec_namespace_prefix(tag: Seq<u8>) -> Option<Seq<u8>> {
    match colon_index(tag) {
        Some(p) => Some(tag.subrange(0, p)),
        None => None,
    }
}

proof fn lemma_first_byte_from(tag: Seq<u8>, b: u8, i: int)
    requires
        0 <= i,
    ensures
        first_byte_from(tag, b, i) matches Some(p) ==> i <= p < tag.len() && tag[p] == b
            && forall|k: int| i <= k < p ==> tag[k] != b,
        first_byte_from(tag, b, i) is None ==> forall|k: int| i <= k < tag.len() ==> tag[k] != b,
    decreases tag.len() - i,
{
    if i < tag.len() && tag[i] != b {
        lemma_first_byte_from(tag, b, i + 1);
    }
}

/// A qualified name is its prefix, a colon and its local name; the prefix
/// holds no colon, and a name without a prefix is its own local name and
/// holds no colon at all.
pub proof fn lemma_qualified_name_parts(tag: Seq<u8>)
    ensures
        spec_namespace_prefix(tag) matches Some(p) ==> tag == p + seq![0x3au8] + spec_local_name(tag)
            && !p.contains(0x3au8),
        spec_namespace_prefix(tag) is None ==> spec_local_name(tag) == tag && !tag.contains(0x3au8),
{
    lemma_first_byte_from(tag, 0x3au8, 0);
    match colon_index(tag) {
        Some(c) => {
            let p = tag.subrange(0, c);
            assert(tag =~= p + seq![0x3au8] + tag.subrange(c + 1, tag.len() as int));
            assert forall|k: int| 0 <= k < p.len() implies p[k] != 0x3au8 by {
                assert(p[k] == tag[k]);
            }
        },
        None => {},
    }
}

fn find_colon(tag: &[u8]) -> (r: Option<usize>)
    ensures
        r matches Some(p) ==> colon_index(tag@) == Some(p as int) && p < tag@.len(),
        r is None ==> colon_index(tag@) is None,
{
    let n = tag.len();
    let mut i: usize = 0;
    while i < n
        invariant
            n == tag@.len(),
            i <= n,
            colon_index(tag@) == first_byte_from(tag@, 0x3a, i as int),
        decreases n - i,
    {
        if tag[i] == 0x3a {
            return Some(i);
        }
        i = i + 1;
    }
    None
}

/// Extracts the local name from a potentially namespace-prefixed tag:
/// `gml:Point` gives `Point`, `Road` gives `Road`.
pub fn local_name(tag: &[u8]) -> (r: &[u8])
    ensures
        r@ == spec_local_name(tag@),
{
    let n = tag.len();
    match find_colon(tag) {
        Some(pos) => slice_subrange(tag, pos + 1, n),
        None => tag,
    }
}

/// Returns the namespace prefix of a tag: `gml:Point` gives `gml`, `Road`
/// gives none.
pub fn namespace_prefix(tag: &[u8]) -> (r: Option<&[u8]>)
    ensures
        r matches Some(p) ==> spec_namespace_prefix(tag@) == Some(p@),
        r is None ==> spec_namespace_prefix(tag@) is None,
{
    match find_colon(tag) {
        Some(pos) => Some(slice_subrange(tag, 0, pos)),
        None => None,
    }
}

/// Byte-wise equality.
fn bytes_eq(a: &[u8], b: &[u8]) -> (r: bool)
    ensures
        r == (a@ == b@),
{
    if a.len() != b.len() {
        return false;
    }
    let mut i: usize = 0;
    while i < a.len()
        invariant
            a@.len() == b@.len(),
            i <= a@.len(),
            forall|k: int| 0 <= k < i ==> a@[k] == b@[k],
        decreases a@.len() - i,
    {
        if a[i] != b[i] {
            return false;
        }
        i = i + 1;
    }
    assert(a@ =~= b@);
    true
}

/// The tag's bytes spell `name`.
pub open spec fn is_tag(b: Seq<u8>, name: &str) -> bool {
    b == vstd::utf8::encode_utf8(name@)
}

fn tag_is(b: &[u8], name: &str) -> (r: bool)
    ensures
        r == is_tag(b@, name),
{
    bytes_eq(b, name.as_bytes())
}

/// The length in bytes of an ASCII name.
proof fn lemma_ascii_tag_len(name: &str)
    requires
        vstd::utf8::is_ascii_chars(name@),
    ensures
        vstd::utf8::encode_utf8(name@).len() == name@.len(),
{
    vstd::utf8::is_ascii_chars_encode_utf8(name@);
}

/// The byte lengths of the element names the parser acts on, which tell
/// `GeometryCollection` and the feature member tags apart from the others.
proof fn lemma_name_lengths()
    ensures
        vstd::utf8::encode_utf8("GeometryCollection"@).len() == 18,
        vstd::utf8::encode_utf8("featureMember"@).len() == 13,
        vstd::utf8::encode_utf8("featureMembers"@).len() == 14,
        vstd::utf8::encode_utf8("boundedBy"@).len() == 9,
        vstd::utf8::encode_utf8("Envelope"@).len() == 8,
        vstd::utf8::encode_utf8("lowerCorner"@).len() == 11,
        vstd::utf8::encode_utf8("upperCorner"@).len() == 11,
        vstd::utf8::encode_utf8("Point"@).len() == 5,
        vstd::utf8::encode_utf8("LineString"@).len() == 10,
        vstd::utf8::encode_utf8("Curve"@).len() == 5,
        vstd::utf8::encode_utf8("MultiCurve"@).len() == 10,
        vstd::utf8::encode_utf8("Polygon"@).len() == 7,
        vstd::utf8::encode_utf8("Surface"@).len() == 7,
        vstd::utf8::encode_utf8("MultiSurface"@).len() == 12,
        vstd::utf8::encode_utf8("exterior"@).len() == 8,
        vstd::utf8::encode_utf8("interior"@).len() == 8,
        vstd::utf8::encode_utf8("curveMember"@).len() == 11,
        vstd::utf8::encode_utf8("surfaceMember"@).len() == 13,
{
    reveal_strlit("GeometryCollection");
    lemma_ascii_tag_len("GeometryCollection");
    reveal_strlit("featureMember");
    lemma_ascii_tag_len("featureMember");
    reveal_strlit("featureMembers");
    lemma_ascii_tag_len("featureMembers");
    reveal_strlit("boundedBy");
    lemma_ascii_tag_len("boundedBy");
    reveal_strlit("Envelope");
    lemma_ascii_tag_len("Envelope");
    reveal_strlit("lowerCorner");
    lemma_ascii_tag_len("lowerCorner");
    reveal_strlit("upperCorner");
    lemma_ascii_tag_len("upperCorner");
    reveal_strlit("Point");
    lemma_ascii_tag_len("Point");
    reveal_strlit("LineString");
    lemma_ascii_tag_len("LineString");
    reveal_strlit("Curve");
    lemma_ascii_tag_len("Curve");
    reveal_strlit("MultiCurve");
    lemma_ascii_tag_len("MultiCurve");
    reveal_strlit("Polygon");
    lemma_ascii_tag_len("Polygon");
    reveal_strlit("Surface");
    lemma_ascii_tag_len("Surface");
    reveal_strlit("MultiSurface");
    lemma_ascii_tag_len("MultiSurface");
    reveal_strlit("exterior");
    lemma_ascii_tag_len("exterior");
    reveal_strlit("interior");
    lemma_ascii_tag_len("interior");
    reveal_strlit("curveMember");
    lemma_ascii_tag_len("curveMember");
    reveal_strlit("surfaceMember");
    lemma_ascii_tag_len("surfaceMember");
}

/// The tag carries the `gml` prefix.
pub open spec fn is_gml_tag(tag: Seq<u8>) -> bool {
    spec_namespace_prefix(tag) matches Some(p) && is_tag(p, "gml")
}

fn gml_prefixed(tag: &[u8]) -> (r: bool)
    ensures
        r == is_gml_tag(tag@),
{
    match namespace_prefix(tag) {
        Some(p) => tag_is(p, "gml"),
        None => false,
    }
}

// ---------------------------------------------------------------------------
// Coordinates and attribute values
// ---------------------------------------------------------------------------

/// The point matches a `lat lon` pair of texts.
pub open spec fn point_is(p: Point, lat: Seq<char>, lon: Seq<char>) -> bool {
    &&& p.x matches Number::Decimal(x)
    &&& x@ == lon
    &&& p.y matches Number::Decimal(y)
    &&& y@ == lat
}

fn decimal(t: &Vec<char>) -> (r: Number)
    ensures
        r matches Number::Decimal(s) && s@ == t@,
{
    Number::Decimal(string_from_chars(t.as_slice()))
}

fn invalid_gml(reason: String) -> (r: ShapefileError)
    ensures
        r is InvalidGml,
{
    ShapefileError::InvalidGml { reason }
}

fn quoted_reason(prefix: &str, t: &Vec<char>) -> (r: String)
    ensures
        r@ == prefix@ + t@ + seq!['\''],
{
    proof {
        broadcast use vstd::string::to_string_from_display_ensures_for_str;
        reveal_strlit("'");
    }
    let mut reason = prefix.to_string();
    reason.append(string_from_chars(t.as_slice()).as_str());
    reason.append("'");
    reason
}

/// A `gml:pos` text parses: at least two words, the first two numbers.
pub open spec fn pos_ok(text: Seq<char>) -> bool {
    let t = ws_tokens(text);
    t.len() >= 2 && is_float_literal(t[0]) && is_float_literal(t[1])
}

/// Parses a `gml:pos` text: a single `lat lon` coordinate pair.
pub fn parse_pos(text: &str) -> (r: Result<Point, ShapefileError>)
    ensures
        r is Ok <==> pos_ok(text@),
        r matches Ok(p) ==> point_is(p, ws_tokens(text@)[0], ws_tokens(text@)[1]),
        r matches Err(e) ==> e is InvalidGml,
{
    let tokens = split_whitespace_chars(&chars_of(text));
    if tokens.len() < 2 {
        let mut reason = "pos requires 2 coordinates, got ".to_string();
        reason.append(&tokens.len().to_string());
        return Err(invalid_gml(reason));
    }
    assert(tokens@[0]@ == ws_tokens(text@)[0] && tokens@[1]@ == ws_tokens(text@)[1]);
    if !float_literal(&tokens[0]) {
        return Err(invalid_gml(quoted_reason("invalid float in pos: '", &tokens[0])));
    }
    if !float_literal(&tokens[1]) {
        return Err(invalid_gml(quoted_reason("invalid float in pos: '", &tokens[1])));
    }
    Ok(Point { x: decimal(&tokens[1]), y: decimal(&tokens[0]) })
}

/// The points a `gml:posList` text gives: consecutive `lat lon` pairs.
pub open spec fn pos_list_ok(text: Seq<char>) -> bool {
    let t = ws_tokens(text);
    t.len() % 2 == 0 && forall|k: int| 0 <= k < t.len() ==> is_float_literal(#[trigger] t[k])
}

/// Parses a `gml:posList` text: whitespace-separated `lat lon lat lon ...`.
pub fn parse_pos_list(text: &str) -> (r: Result<Vec<Point>, ShapefileError>)
    ensures
        r is Ok <==> pos_list_ok(text@),
        r matches Ok(pts) ==> pts@.len() * 2 == ws_tokens(text@).len() && forall|k: int|
            0 <= k < pts@.len() ==> point_is(
                #[trigger] pts@[k],
                ws_tokens(text@)[2 * k],
                ws_tokens(text@)[2 * k + 1],
            ),
        r matches Err(e) ==> e is InvalidGml,
{
    let tokens = split_whitespace_chars(&chars_of(text));
    let ghost t = ws_tokens(text@);
    let n = tokens.len();
    if n % 2 != 0 {
        let mut reason = "posList has odd number of coordinates (".to_string();
        reason.append(&n.to_string());
        reason.append(")");
        return Err(invalid_gml(reason));
    }
    let mut points: Vec<Point> = Vec::new();
    let mut i: usize = 0;
    while i < n
        invariant
            n == tokens@.len(),
            char_seqs(tokens@) == t,
            t == ws_tokens(text@),
            n % 2 == 0,
            i % 2 == 0,
            i <= n,
            points@.len() * 2 == i,
            forall|k: int| 0 <= k < i ==> is_float_literal(#[trigger] t[k]),
            forall|k: int| 0 <= k < points@.len() ==> point_is(#[trigger] points@[k], t[2 * k], t[2 * k + 1]),
        decreases n - i,
    {
        assert(tokens@[i as int]@ == t[i as int] && tokens@[i + 1]@ == t[i + 1]);
        if !float_literal(&tokens[i]) {
            assert(!is_float_literal(t[i as int]));
            return Err(invalid_gml(quoted_reason("invalid float in posList: '", &tokens[i])));
        }
        if !float_literal(&tokens[i + 1]) {
            assert(!is_float_literal(t[i + 1]));
            return Err(invalid_gml(quoted_reason("invalid float in posList: '", &tokens[i + 1])));
        }
        points.push(Point { x: decimal(&tokens[i + 1]), y: decimal(&tokens[i]) });
        i = i + 2;
    }
    Ok(points)
}

/// The tuples of a `gml:coordinates` text: words separated by whitespace or
/// `;`.
pub open spec fn coordinate_tuples(text: Seq<char>) -> Seq<Seq<char>> {
    ws_tokens(replace_char(text, ';', ' '))
}

/// Every tuple has at least two comma-separated values, the first two numbers.
pub open spec fn coordinates_ok(text: Seq<char>) -> bool {
    forall|k: int|
        0 <= k < coordinate_tuples(text).len() ==> {
            let parts = split_on(#[trigger] coordinate_tuples(text)[k], ',');
            parts.len() >= 2 && is_float_literal(parts[0]) && is_float_literal(parts[1])
        }
}

/// Parses `gml:coordinates` text: `lat,lon` tuples separated by whitespace or
/// semicolons.
pub fn parse_coordinates(text: &str) -> (r: Result<Vec<Point>, ShapefileError>)
    ensures
        r is Ok <==> coordinates_ok(text@),
        r matches Ok(pts) ==> pts@.len() == coordinate_tuples(text@).len() && forall|k: int|
            0 <= k < pts@.len() ==> point_is(
                #[trigger] pts@[k],
                split_on(coordinate_tuples(text@)[k], ',')[0],
                split_on(coordinate_tuples(text@)[k], ',')[1],
            ),
        r matches Err(e) ==> e is InvalidGml,
{
    let normalized = replace_chars(&chars_of(text), ';', ' ');
    let tuples = split_whitespace_chars(&normalized);
    let ghost t = coordinate_tuples(text@);
    let n = tuples.len();
    let mut points: Vec<Point> = Vec::new();
    let mut i: usize = 0;
    while i < n
        invariant
            n == tuples@.len(),
            char_seqs(tuples@) == t,
            t == coordinate_tuples(text@),
            i <= n,
            points@.len() == i,
            forall|k: int|
                0 <= k < i ==> {
                    let parts = split_on(#[trigger] t[k], ',');
                    parts.len() >= 2 && is_float_literal(parts[0]) && is_float_literal(parts[1])
                },
            forall|k: int|
                0 <= k < i ==> point_is(
                    #[trigger] points@[k],
                    split_on(t[k], ',')[0],
                    split_on(t[k], ',')[1],
                ),
        decreases n - i,
    {
        let parts = split_chars_on(&tuples[i], ',');
        assert(tuples@[i as int]@ == t[i as int]);
        if parts.len() < 2 {
            return Err(
                invalid_gml(
                    quoted_reason("coordinates tuple needs at least 2 values: '", &tuples[i]),
                ),
            );
        }
        assert(parts@[0]@ == split_on(t[i as int], ',')[0]);
        assert(parts@[1]@ == split_on(t[i as int], ',')[1]);
        if !float_literal(&parts[0]) {
            return Err(invalid_gml(quoted_reason("invalid float in coordinates: '", &parts[0])));
        }
        if !float_literal(&parts[1]) {
            return Err(invalid_gml(quoted_reason("invalid float in coordinates: '", &parts[1])));
        }
        points.push(Point { x: decimal(&parts[1]), y: decimal(&parts[0]) });
        i = i + 1;
    }
    Ok(points)
}

/// The value of an attribute element's text: `Null` when blank, a number
/// when the trimmed text is one, the trimmed text otherwise.
pub open spec fn value_is(v: AttributeValue, text: Seq<char>) -> bool {
    let t = trim_seq(text);
    if t.len() == 0 {
        v is Null
    } else if is_float_literal(t) {
        &&& v matches AttributeValue::Numeric(Number::Decimal(s))
        &&& s@ == t
    } else {
        &&& v matches AttributeValue::Text(s)
        &&& s@ == t
    }
}

/// Converts an attribute text value: a number if it parses as one, otherwise
/// text; blank means `Null`.
pub fn parse_attribute_value(text: &str) -> (r: AttributeValue)
    ensures
        value_is(r, text@),
{
    let t = trim_chars(&chars_of(text));
    if t.len() == 0 {
        AttributeValue::Null
    } else if float_literal(&t) {
        AttributeValue::Numeric(Number::Decimal(string_from_chars(t.as_slice())))
    } else {
        AttributeValue::Text(string_from_chars(t.as_slice()))
    }
}

// ---------------------------------------------------------------------------
// Polygons
// ---------------------------------------------------------------------------

/// The rings a polygon built from an exterior and interiors has: the
/// exterior, then every non-empty interior; none without a non-empty exterior.
pub open spec fn polygon_rings(exterior: Option<Seq<Point>>, interiors: Seq<Seq<Point>>) -> Option<
    Seq<Seq<Point>>,
> {
    match exterior {
        Some(e) => if e.len() > 0 {
            Some(seq![e] + keep(interiors, |r: Seq<Point>| r.len() > 0))
        } else {
            None
        },
        None => None,
    }
}

/// The values of a `gml:posList` text's points.
proof fn lemma_pos_list_v(text: Seq<char>, pts: Seq<Point>)
    requires
        pos_list_ok(text),
        pts.len() * 2 == ws_tokens(text).len(),
        forall|k: int|
            0 <= k < pts.len() ==> point_is(#[trigger] pts[k], ws_tokens(text)[2 * k], ws_tokens(text)[2 * k + 1]),
    ensures
        pos_list_v(text) == Some(pvs(pts)),
{
    let t = ws_tokens(text);
    assert(pvs(pts) =~= Seq::new(
        (t.len() / 2) as nat,
        |k: int| (crate::number::NumberView::Decimal(t[2 * k + 1]), crate::number::NumberView::Decimal(t[2 * k])),
    )) by {
        assert forall|k: int| 0 <= k < pts.len() implies pvs(pts)[k] == (
            crate::number::NumberView::Decimal(t[2 * k + 1]),
            crate::number::NumberView::Decimal(t[2 * k]),
        ) by {
            assert(point_is(pts[k], t[2 * k], t[2 * k + 1]));
        }
    }
}

/// The values of a `gml:coordinates` text's points.
proof fn lemma_coords_v(text: Seq<char>, pts: Seq<Point>)
    requires
        coordinates_ok(text),
        pts.len() == coordinate_tuples(text).len(),
        forall|k: int|
            0 <= k < pts.len() ==> point_is(
                #[trigger] pts[k],
                split_on(coordinate_tuples(text)[k], ',')[0],
                split_on(coordinate_tuples(text)[k], ',')[1],
            ),
    ensures
        coords_v(text) == Some(pvs(pts)),
{
    let t = coordinate_tuples(text);
    assert(pvs(pts) =~= Seq::new(
        t.len(),
        |k: int|
            (
                crate::number::NumberView::Decimal(split_on(t[k], ',')[1]),
                crate::number::NumberView::Decimal(split_on(t[k], ',')[0]),
            ),
    )) by {
        assert forall|k: int| 0 <= k < pts.len() implies pvs(pts)[k] == (
            crate::number::NumberView::Decimal(split_on(t[k], ',')[1]),
            crate::number::NumberView::Decimal(split_on(t[k], ',')[0]),
        ) by {
            assert(point_is(pts[k], split_on(t[k], ',')[0], split_on(t[k], ',')[1]));
        }
    }
}

/// Keeping the non-empty lists commutes with taking values.
proof fn lemma_keep_nonempty_v(s: Seq<Seq<Point>>)
    ensures
        keep(crate::gml_model::pvss(s), |r: Seq<crate::gml_model::PointV>| r.len() > 0)
            == crate::gml_model::pvss(keep(s, |r: Seq<Point>| r.len() > 0)),
    decreases s.len(),
{
    let p = |r: Seq<Point>| r.len() > 0;
    let q = |r: Seq<crate::gml_model::PointV>| r.len() > 0;
    if s.len() == 0 {
        assert(crate::gml_model::pvss(s) =~= Seq::<Seq<crate::gml_model::PointV>>::empty());
        assert(crate::gml_model::pvss(keep(s, p)) =~= Seq::<Seq<crate::gml_model::PointV>>::empty());
    } else {
        lemma_keep_nonempty_v(s.drop_last());
        assert(crate::gml_model::pvss(s).drop_last() =~= crate::gml_model::pvss(s.drop_last()));
        assert(crate::gml_model::pvss(s).last() == pvs(s.last()));
        if p(s.last()) {
            assert(crate::gml_model::pvss(keep(s, p)) =~= crate::gml_model::pvss(keep(s.drop_last(), p)).push(
                pvs(s.last()),
            ));
        }
    }
}

/// The values of the polygon that an exterior and interiors make.
proof fn lemma_polygon_v(e: Option<Seq<Point>>, ints: Seq<Vec<Point>>)
    ensures
        crate::gml_model::polygon_v(
            match e {
                Some(x) => Some(pvs(x)),
                None => None,
            },
            vecs_v(ints),
        ) == match polygon_rings(e, point_seqs(ints)) {
            Some(rs) => Some(crate::gml_model::pvss(rs)),
            None => None,
        },
{
    assert(vecs_v(ints) =~= crate::gml_model::pvss(point_seqs(ints)));
    lemma_keep_nonempty_v(point_seqs(ints));
    if let Some(x) = e {
        if x.len() > 0 {
            let k = keep(point_seqs(ints), |r: Seq<Point>| r.len() > 0);
            assert(crate::gml_model::pvss(seq![x] + k) =~= seq![pvs(x)] + crate::gml_model::pvss(k));
        }
    }
}

/// The point sequences inside a list of point vectors.
pub open spec fn point_seqs(v: Seq<Vec<Point>>) -> Seq<Seq<Point>> {
    v.map_values(|p: Vec<Point>| p@)
}

/// Builds a `Polygon` from exterior and interior rings.
pub fn build_polygon(exterior: Option<Vec<Point>>, interiors: Vec<Vec<Point>>) -> (r: Option<Polygon>)
    ensures
        match polygon_rings(
            match exterior {
                Some(e) => Some(e@),
                None => None,
            },
            point_seqs(interiors@),
        ) {
            Some(rs) => r matches Some(p) && p@ == rs,
            None => r is None,
        },
{
    let ext = match exterior {
        Some(e) => e,
        None => {
            return None;
        },
    };
    if ext.len() == 0 {
        return None;
    }
    let ghost ev = ext@;
    let ghost iv = point_seqs(interiors@);
    let ghost p = |r: Seq<Point>| r.len() > 0;
    let mut rings: Vec<Ring> = Vec::new();
    rings.push(Ring { points: ext });
    let n = interiors.len();
    let mut i: usize = 0;
    proof {
        assert(rings_view(rings@) =~= seq![ev] + keep(iv.take(0), p));
    }
    while i < n
        invariant
            n == iv.len(),
            iv == point_seqs(interiors@),
            i <= n,
            p == (|r: Seq<Point>| r.len() > 0),
            rings_view(rings@) == seq![ev] + keep(iv.take(i as int), p),
        decreases n - i,
    {
        let interior = clone_points(&interiors[i]);
        assert(interior@ == iv[i as int]);
        proof {
            assert(iv.take(i + 1).drop_last() =~= iv.take(i as int));
            assert(iv.take(i + 1).last() == iv[i as int]);
        }
        let ghost before = rings_view(rings@);
        if interior.len() > 0 {
            rings.push(Ring { points: interior });
            assert(rings_view(rings@) =~= before.push(iv[i as int]));
        }
        i = i + 1;
    }
    assert(iv.take(n as int) =~= iv);
    Some(Polygon { rings })
}

// ---------------------------------------------------------------------------
// The parser state
// ---------------------------------------------------------------------------

/// The kind of geometry element the parser is inside.
#[derive(Debug, Clone, Copy, PartialEq, Eq, Structural)]
pub enum GeomState {
    /// Not inside any geometry element.
    Absent,
    Point,
    LineString,
    Curve,
    MultiCurve,
    Polygon,
    Surface,
    MultiSurface,
}

/// The geometries a finished feature yields: its first point, its line
/// (MultiCurve: every part), its polygon, one polygon per surface of a
/// MultiSurface, or a null geometry when it had no geometry element.
pub open spec fn feature_geometries(
    g: GeomState,
    points: Seq<Point>,
    line_parts: Seq<Seq<Point>>,
    exterior: Option<Seq<Point>>,
    interiors: Seq<Seq<Point>>,
    surfaces: Seq<Seq<Seq<Point>>>,
) -> Seq<GeometryView> {
    match g {
        GeomState::Point => if points.len() > 0 {
            seq![GeometryView::Point(points[0])]
        } else {
            Seq::empty()
        },
        GeomState::LineString | GeomState::Curve => if points.len() > 0 {
            seq![GeometryView::Polyline(seq![points])]
        } else {
            Seq::empty()
        },
        GeomState::MultiCurve => {
            let parts = if points.len() > 0 {
                line_parts.push(points)
            } else {
                line_parts
            };
            if parts.len() > 0 {
                seq![GeometryView::Polyline(parts)]
            } else {
                Seq::empty()
            }
        },
        GeomState::Polygon | GeomState::Surface => match polygon_rings(exterior, interiors) {
            Some(rs) => seq![GeometryView::Polygon(rs)],
            None => Seq::empty(),
        },
        GeomState::MultiSurface => {
            let polys = match polygon_rings(exterior, interiors) {
                Some(rs) => surfaces.push(rs),
                None => surfaces,
            };
            polys.map_values(|rs: Seq<Seq<Point>>| GeometryView::Polygon(rs))
        },
        GeomState::Absent => seq![GeometryView::Null],
    }
}

/// Records numbered 1, 2, ... in order, the next number following the last.
pub open spec fn numbered(records: Seq<ShapeRecord>, next: u32) -> bool {
    &&& next == records.len() + 1
    &&& forall|k: int| 0 <= k < records.len() ==> (#[trigger] records[k]).record_number == k + 1
}

/// The polygons' rings, as sequences.
pub open spec fn polygons_rings(v: Seq<Polygon>) -> Seq<Seq<Seq<Point>>> {
    v.map_values(|p: Polygon| p@)
}

/// The state of the event-driven GML parser.
pub struct GmlState {
    path: Vec<String>,
    in_feature_member: bool,
    in_feature: bool,
    feature_type: Option<String>,
    geom_state: GeomState,
    in_exterior: bool,
    in_interior: bool,
    in_bounded_by: bool,
    in_envelope: bool,
    in_lower_corner: bool,
    in_upper_corner: bool,
    text_buf: String,
    feature_depth: usize,
    attributes: Attributes,
    points: Vec<Point>,
    exterior_ring: Option<Vec<Point>>,
    interior_rings: Vec<Vec<Point>>,
    line_parts: Vec<Vec<Point>>,
    surface_polygons: Vec<Polygon>,
    srs_name: Option<String>,
    srs_captured: bool,
    envelope_lower: Option<Point>,
    envelope_upper: Option<Point>,
    records: Vec<ShapeRecord>,
    next_record_number: u32,
}

impl GmlState {
    /// The state as values.
    pub closed spec fn model(&self) -> GmlModel {
        GmlModel {
            depth: self.path@.len() as int,
            in_member: self.in_feature_member,
            in_feature: self.in_feature,
            feature_type: opt_str(self.feature_type),
            geom: self.geom_state,
            in_exterior: self.in_exterior,
            in_interior: self.in_interior,
            in_bounded_by: self.in_bounded_by,
            in_envelope: self.in_envelope,
            in_lower: self.in_lower_corner,
            in_upper: self.in_upper_corner,
            text: self.text_buf@,
            feature_depth: self.feature_depth as int,
            attrs: attrs_v(self.attributes@),
            points: pvs(self.points@),
            exterior: match self.exterior_ring {
                Some(e) => Some(pvs(e@)),
                None => None,
            },
            interiors: vecs_v(self.interior_rings@),
            parts: vecs_v(self.line_parts@),
            surfaces: polys_v(self.surface_polygons@),
            srs: opt_str(self.srs_name),
            srs_taken: self.srs_captured,
            lower: match self.envelope_lower {
                Some(p) => Some(pv(p)),
                None => None,
            },
            upper: match self.envelope_upper {
                Some(p) => Some(pv(p)),
                None => None,
            },
            records: records_v(self.records@),
        }
    }

    /// The records finished so far.
    pub closed spec fn spec_records(&self) -> Seq<ShapeRecord> {
        self.records@
    }

    /// The records are numbered 1, 2, ... in order.
    pub closed spec fn wf(&self) -> bool {
        numbered(self.records@, self.next_record_number)
    }

    /// The geometries the current feature would yield if it ended now.
    pub closed spec fn pending_geometries(&self) -> Seq<GeometryView> {
        feature_geometries(
            self.geom_state,
            self.points@,
            point_seqs(self.line_parts@),
            match &self.exterior_ring {
                Some(e) => Some(e@),
                None => None,
            },
            point_seqs(self.interior_rings@),
            polygons_rings(self.surface_polygons@),
        )
    }

    /// The attributes collected for the current feature.
    pub closed spec fn spec_attributes(&self) -> Map<Seq<char>, AttributeValue> {
        self.attributes@
    }

    /// A parser before the first event.
    pub fn new() -> (r: Self)
        ensures
            r.wf(),
            r.spec_records().len() == 0,
            r.model() == crate::gml_model::initial_model(),
    {
        let st = GmlState {
            path: Vec::new(),
            in_feature_member: false,
            in_feature: false,
            feature_type: None,
            geom_state: GeomState::Absent,
            in_exterior: false,
            in_interior: false,
            in_bounded_by: false,
            in_envelope: false,
            in_lower_corner: false,
            in_upper_corner: false,
            text_buf: String::new(),
            feature_depth: 0,
            attributes: Attributes::new(),
            points: Vec::new(),
            exterior_ring: None,
            interior_rings: Vec::new(),
            line_parts: Vec::new(),
            surface_polygons: Vec::new(),
            srs_name: None,
            srs_captured: false,
            envelope_lower: None,
            envelope_upper: None,
            records: Vec::new(),
            next_record_number: 1,
        };
        proof {
            assert(attrs_v(st.attributes@) =~= Map::<Seq<char>, crate::models::attribute::AttrView>::empty());
            assert(pvs(st.points@) =~= Seq::<crate::gml_model::PointV>::empty());
            assert(vecs_v(st.interior_rings@) =~= Seq::<Seq<crate::gml_model::PointV>>::empty());
            assert(vecs_v(st.line_parts@) =~= Seq::<Seq<crate::gml_model::PointV>>::empty());
            assert(polys_v(st.surface_polygons@) =~= Seq::<Seq<Seq<crate::gml_model::PointV>>>::empty());
            assert(records_v(st.records@) =~= Seq::<(crate::gml_model::GeomV, Map<Seq<char>, crate::models::attribute::AttrView>)>::empty());
        }
        st
    }

    /// Forgets everything about the current feature.
    fn reset_feature(&mut self)
        ensures
            final(self).records@ == old(self).records@,
            final(self).next_record_number == old(self).next_record_number,
            final(self).path@ == old(self).path@,
            !final(self).in_feature,
            final(self).text_buf@.len() == 0,
            final(self).in_feature_member == old(self).in_feature_member,
            final(self).in_bounded_by == old(self).in_bounded_by,
            final(self).in_envelope == old(self).in_envelope,
            final(self).in_lower_corner == old(self).in_lower_corner,
            final(self).in_upper_corner == old(self).in_upper_corner,
            final(self).srs_name == old(self).srs_name,
            final(self).srs_captured == old(self).srs_captured,
            final(self).envelope_lower == old(self).envelope_lower,
            final(self).envelope_upper == old(self).envelope_upper,
            final(self).model() == crate::gml_model::reset_feature(old(self).model()),
    {
        self.in_feature = false;
        self.feature_type = None;
        self.geom_state = GeomState::Absent;
        self.in_exterior = false;
        self.in_interior = false;
        self.text_buf = String::new();
        self.feature_depth = 0;
        self.attributes = Attributes::new();
        self.points = Vec::new();
        self.exterior_ring = None;
        self.interior_rings = Vec::new();
        self.line_parts = Vec::new();
        self.surface_polygons = Vec::new();
        proof {
            assert(attrs_v(self.attributes@) =~= Map::<Seq<char>, crate::models::attribute::AttrView>::empty());
            assert(pvs(self.points@) =~= Seq::<crate::gml_model::PointV>::empty());
            assert(vecs_v(self.interior_rings@) =~= Seq::<Seq<crate::gml_model::PointV>>::empty());
            assert(vecs_v(self.line_parts@) =~= Seq::<Seq<crate::gml_model::PointV>>::empty());
            assert(polys_v(self.surface_polygons@) =~= Seq::<Seq<Seq<crate::gml_model::PointV>>>::empty());
        }
    }

    /// Appends one record with the current feature's attributes.
    fn push_record(&mut self, geometry: Geometry, attributes: Attributes) -> (r: Result<(), ShapefileError>)
        ensures
            old(self).next_record_number < u32::MAX ==> r is Ok && final(self).records@ == old(self).records@.push(
                ShapeRecord {
                    record_number: old(self).next_record_number,
                    geometry,
                    attributes,
                },
            ) && final(self).next_record_number == old(self).next_record_number + 1,
            old(self).next_record_number == u32::MAX ==> (r matches Err(e) && e is InvalidGml)
                && final(self).records@ == old(self).records@ && final(self).next_record_number
                == old(self).next_record_number,
            final(self).path@ == old(self).path@,
            final(self).in_feature == old(self).in_feature,
            final(self).in_feature_member == old(self).in_feature_member,
            final(self).srs_name == old(self).srs_name,
            final(self).envelope_lower == old(self).envelope_lower,
            final(self).envelope_upper == old(self).envelope_upper,
            final(self).geom_state == old(self).geom_state,
            final(self).points@ == old(self).points@,
            final(self).line_parts@ == old(self).line_parts@,
            final(self).exterior_ring == old(self).exterior_ring,
            final(self).interior_rings@ == old(self).interior_rings@,
            final(self).surface_polygons@ == old(self).surface_polygons@,
            final(self).attributes@ == old(self).attributes@,
            final(self).text_buf@ == old(self).text_buf@,
            final(self).model() == (GmlModel { records: records_v(final(self).records@), ..old(self).model() }),
    {
        if self.next_record_number == u32::MAX {
            return Err(
                ShapefileError::InvalidGml {
                    reason: "too many records for 32-bit record numbers".to_string(),
                },
            );
        }
        self.records.push(ShapeRecord { record_number: self.next_record_number, geometry, attributes });
        self.next_record_number = self.next_record_number + 1;
        Ok(())
    }
}

/// A copy of a polygon.
fn clone_polygon(p: &Polygon) -> (r: Polygon)
    ensures
        r@ == p@,
{
    let mut rings: Vec<Ring> = Vec::new();
    let n = p.rings.len();
    let mut i: usize = 0;
    while i < n
        invariant
            n == p.rings@.len(),
            i <= n,
            rings_view(rings@) == rings_view(p.rings@).take(i as int),
        decreases n - i,
    {
        let ghost before = rings_view(rings@);
        rings.push(Ring { points: clone_points(&p.rings[i].points) });
        assert(rings_view(rings@) =~= before.push(rings_view(p.rings@)[i as int]));
        i = i + 1;
        assert(rings_view(rings@) =~= rings_view(p.rings@).take(i as int));
    }
    assert(rings_view(p.rings@).take(n as int) =~= rings_view(p.rings@));
    Polygon { rings }
}

/// The values of the geometries a feature yields are the geometries its
/// state's values yield.
proof fn lemma_feature_geoms_v(st: GmlState)
    ensures
        crate::gml_model::feature_geoms_v(st.model()) == st.pending_geometries().map_values(
            |g: GeometryView| crate::gml_model::geom_v(g),
        ),
{
    let m = st.model();
    let pend = st.pending_geometries();
    let f = |g: GeometryView| crate::gml_model::geom_v(g);
    let ext = match st.exterior_ring {
        Some(e) => Some(e@),
        None => None,
    };
    lemma_polygon_v(ext, st.interior_rings@);
    match st.geom_state {
        GeomState::Point => {
            assert(crate::gml_model::feature_geoms_v(m) =~= pend.map_values(f));
        },
        GeomState::LineString | GeomState::Curve => {
            assert(crate::gml_model::pvss(seq![st.points@]) =~= seq![pvs(st.points@)]);
            assert(crate::gml_model::feature_geoms_v(m) =~= pend.map_values(f));
        },
        GeomState::MultiCurve => {
            let lp = point_seqs(st.line_parts@);
            assert(crate::gml_model::pvss(lp) =~= vecs_v(st.line_parts@));
            assert(crate::gml_model::pvss(lp.push(st.points@)) =~= vecs_v(st.line_parts@).push(
                pvs(st.points@),
            ));
            assert(crate::gml_model::feature_geoms_v(m) =~= pend.map_values(f));
        },
        GeomState::Polygon | GeomState::Surface => {
            assert(crate::gml_model::feature_geoms_v(m) =~= pend.map_values(f));
        },
        GeomState::MultiSurface => {
            let pr = polygons_rings(st.surface_polygons@);
            assert(pr.map_values(|rs: Seq<Seq<Point>>| crate::gml_model::pvss(rs)) =~= polys_v(
                st.surface_polygons@,
            ));
            let polys = match polygon_rings(ext, point_seqs(st.interior_rings@)) {
                Some(rs) => pr.push(rs),
                None => pr,
            };
            let polys_m = match crate::gml_model::polygon_v(m.exterior, m.interiors) {
                Some(rs) => m.surfaces.push(rs),
                None => m.surfaces,
            };
            assert(polys.map_values(|rs: Seq<Seq<Point>>| crate::gml_model::pvss(rs)) =~= polys_m);
            assert(crate::gml_model::feature_geoms_v(m) =~= pend.map_values(f));
        },
        GeomState::Absent => {
            assert(crate::gml_model::feature_geoms_v(m) =~= pend.map_values(f));
        },
    }
}

/// What finalizing leaves, once the feature is forgotten, is the state that
/// finishing the feature's values gives, forgotten likewise.
proof fn lemma_finalize_model(before: GmlState, after: GmlState)
    requires
        before.wf(),
        before.next_record_number + before.pending_geometries().len() <= u32::MAX,
        after.spec_records().take(before.spec_records().len() as int) == before.spec_records(),
        after.spec_records().len() == before.spec_records().len() + before.pending_geometries().len(),
        forall|j: int|
            0 <= j < before.pending_geometries().len() ==> {
                let rec = #[trigger] after.spec_records()[before.spec_records().len() + j];
                rec.geometry@ == before.pending_geometries()[j] && rec.attributes@ == before.spec_attributes()
            },
        after.path@ == before.path@,
        after.in_feature_member == before.in_feature_member,
        after.srs_name == before.srs_name,
        after.envelope_lower == before.envelope_lower,
        after.envelope_upper == before.envelope_upper,
        after.in_bounded_by == before.in_bounded_by,
        after.in_envelope == before.in_envelope,
        after.in_lower_corner == before.in_lower_corner,
        after.in_upper_corner == before.in_upper_corner,
        after.srs_captured == before.srs_captured,
    ensures
        crate::gml_model::finish_feature(before.model()) is Some,
        crate::gml_model::reset_feature(GmlModel { in_member: false, ..after.model() })
            == crate::gml_model::reset_feature(
            GmlModel { in_member: false, ..crate::gml_model::finish_feature(before.model())->Some_0 },
        ),
{
    lemma_feature_geoms_v(before);
    let m0 = before.model();
    let gs = crate::gml_model::feature_geoms_v(m0);
    let n0 = before.records@.len();
    let target = records_v(before.records@) + gs.map_values(|g: crate::gml_model::GeomV| (g, m0.attrs));
    assert forall|k: int| 0 <= k < after.records@.len() implies #[trigger] records_v(after.records@)[k] == target[k] by {
        if k < n0 {
            assert(after.records@.take(n0 as int)[k] == before.records@[k]);
        } else {
            let j = k - n0;
            assert(after.records@[n0 + j].geometry@ == before.pending_geometries()[j]);
        }
    }
    assert(records_v(after.records@) =~= target);
}

/// Finalizes the current feature: appends the records its geometry yields,
/// numbered on from the last record, each with the feature's attributes.
/// Fails only when a record number would exceed `u32::MAX`.
#[verifier::rlimit(80)]
fn finalize_feature(state: &mut GmlState) -> (r: Result<(), ShapefileError>)
    requires
        old(state).wf(),
    ensures
        final(state).wf(),
        final(state).spec_records().take(old(state).spec_records().len() as int)
            == old(state).spec_records(),
        old(state).next_record_number + old(state).pending_geometries().len() <= u32::MAX ==> {
            &&& r is Ok
            &&& final(state).spec_records().len() == old(state).spec_records().len()
                + old(state).pending_geometries().len()
            &&& forall|j: int|
                0 <= j < old(state).pending_geometries().len() ==> {
                    let rec = #[trigger] final(state).spec_records()[old(state).spec_records().len() + j];
                    rec.geometry@ == old(state).pending_geometries()[j] && rec.attributes@ == old(state).spec_attributes()
                        && rec.record_number == old(state).next_record_number + j
                }
            &&& final(state).next_record_number == old(state).next_record_number
                + old(state).pending_geometries().len()
        },
        old(state).geom_state == GeomState::Absent ==> old(state).pending_geometries() == seq![GeometryView::Null],
        old(state).next_record_number + old(state).pending_geometries().len() > u32::MAX ==> (r matches Err(
            e,
        ) && e is InvalidGml),
        final(state).path@ == old(state).path@,
        final(state).in_feature == old(state).in_feature,
        final(state).in_feature_member == old(state).in_feature_member,
        final(state).srs_name == old(state).srs_name,
        final(state).envelope_lower == old(state).envelope_lower,
        final(state).envelope_upper == old(state).envelope_upper,
        final(state).in_bounded_by == old(state).in_bounded_by,
        final(state).in_envelope == old(state).in_envelope,
        final(state).in_lower_corner == old(state).in_lower_corner,
        final(state).in_upper_corner == old(state).in_upper_corner,
        final(state).srs_captured == old(state).srs_captured,
{
    let ghost geoms = state.pending_geometries();
    let ghost recs0 = state.records@;
    let ghost n0 = state.records@.len();
    let ghost attrs0 = state.attributes@;
    let attributes = state.attributes.clone();
    match state.geom_state {
        GeomState::Point => {
            if state.points.len() > 0 {
                let pt = state.points[0].clone();
                state.push_record(Geometry::Point(pt), attributes)?;
                assert(state.records@.take(n0 as int) =~= recs0);
            } else {
                assert(state.records@.take(n0 as int) =~= recs0);
            }
        },
        GeomState::LineString | GeomState::Curve => {
            if state.points.len() > 0 {
                let mut pts: Vec<Point> = Vec::new();
                core::mem::swap(&mut pts, &mut state.points);
                let ghost pv = pts@;
                let mut parts: Vec<Vec<Point>> = Vec::new();
                parts.push(pts);
                let geometry = Geometry::Polyline(Polyline { parts });
                assert(parts_view(parts@) =~= seq![pv]);
                state.push_record(geometry, attributes)?;
            }
            assert(state.records@.take(n0 as int) =~= recs0);
        },
        GeomState::MultiCurve => {
            if state.points.len() > 0 {
                let mut pts: Vec<Point> = Vec::new();
                core::mem::swap(&mut pts, &mut state.points);
                let ghost lp = point_seqs(state.line_parts@);
                state.line_parts.push(pts);
                assert(point_seqs(state.line_parts@) =~= lp.push(pts@));
            }
            if state.line_parts.len() > 0 {
                let mut parts: Vec<Vec<Point>> = Vec::new();
                core::mem::swap(&mut parts, &mut state.line_parts);
                let geometry = Geometry::Polyline(Polyline { parts });
                assert(parts_view(parts@) =~= point_seqs(parts@));
                state.push_record(geometry, attributes)?;
            }
            assert(state.records@.take(n0 as int) =~= recs0);
        },
        GeomState::Polygon | GeomState::Surface => {
            let mut ext: Option<Vec<Point>> = None;
            core::mem::swap(&mut ext, &mut state.exterior_ring);
            let mut ints: Vec<Vec<Point>> = Vec::new();
            core::mem::swap(&mut ints, &mut state.interior_rings);
            match build_polygon(ext, ints) {
                Some(poly) => {
                    state.push_record(Geometry::Polygon(poly), attributes)?;
                },
                None => {},
            }
            assert(state.records@.take(n0 as int) =~= recs0);
        },
        GeomState::MultiSurface => {
            let mut ext: Option<Vec<Point>> = None;
            core::mem::swap(&mut ext, &mut state.exterior_ring);
            let mut ints: Vec<Vec<Point>> = Vec::new();
            core::mem::swap(&mut ints, &mut state.interior_rings);
            let ghost sp = polygons_rings(state.surface_polygons@);
            match build_polygon(ext, ints) {
                Some(poly) => {
                    state.surface_polygons.push(poly);
                    assert(polygons_rings(state.surface_polygons@) =~= sp.push(poly@));
                },
                None => {},
            }
            let mut polys: Vec<Polygon> = Vec::new();
            core::mem::swap(&mut polys, &mut state.surface_polygons);
            let ghost pr = polygons_rings(polys@);
            assert(geoms =~= pr.map_values(|rs: Seq<Seq<Point>>| GeometryView::Polygon(rs)));
            let np = polys.len();
            let mut i: usize = 0;
            while i < np
                invariant
                    np == polys@.len(),
                    pr == polygons_rings(polys@),
                    geoms == pr.map_values(|rs: Seq<Seq<Point>>| GeometryView::Polygon(rs)),
                    i <= np,
                    numbered(state.records@, state.next_record_number),
                    state.records@.len() == n0 + i,
                    state.records@.take(n0 as int) == recs0,
                    attributes@ == attrs0,
                    geoms.len() == np,
                    geoms == old(state).pending_geometries(),
                    forall|j: int|
                        0 <= j < i ==> {
                            let rec = #[trigger] state.records@[n0 + j];
                            rec.geometry@ == geoms[j] && rec.attributes@ == attrs0
                        },
                    state.path@ == old(state).path@,
                    state.in_feature == old(state).in_feature,
                    state.in_feature_member == old(state).in_feature_member,
                    state.srs_name == old(state).srs_name,
                    state.envelope_lower == old(state).envelope_lower,
                    state.envelope_upper == old(state).envelope_upper,
                    state.in_bounded_by == old(state).in_bounded_by,
                    state.in_envelope == old(state).in_envelope,
                    state.in_lower_corner == old(state).in_lower_corner,
                    state.in_upper_corner == old(state).in_upper_corner,
                    state.srs_captured == old(state).srs_captured,
                    n0 == old(state).records@.len(),
                    recs0 == old(state).records@,
                    old(state).next_record_number == n0 + 1,
                decreases np - i,
            {
                let poly = clone_polygon(&polys[i]);
                let ghost before = state.records@;
                state.push_record(Geometry::Polygon(poly), attributes.clone())?;
                proof {
                    assert(state.records@.take(n0 as int) =~= before.take(n0 as int));
                }
                i = i + 1;
            }
        },
        GeomState::Absent => {
            state.push_record(Geometry::Null, attributes)?;
            assert(state.records@.take(n0 as int) =~= recs0);
        },
    }
    Ok(())
}

/// The tag names a feature member container (`featureMember` or
/// `featureMembers`).
pub open spec fn is_member_tag(local: Seq<u8>) -> bool {
    is_tag(local, "featureMember") || is_tag(local, "featureMembers")
}

impl GmlState {
    /// Takes `srsName` from the attributes of the first geometry element
    /// that has one.
    fn extract_srs_name(&mut self, attrs: &Vec<(Vec<u8>, Vec<u8>)>)
        ensures
            final(self).records@ == old(self).records@,
            final(self).next_record_number == old(self).next_record_number,
            final(self).in_feature == old(self).in_feature,
            final(self).path@ == old(self).path@,
            final(self).in_feature_member == old(self).in_feature_member,
            final(self).text_buf@ == old(self).text_buf@,
            final(self).model() == take_srs(old(self).model(), attr_pairs(attrs@)),
    {
        if self.srs_captured {
            return;
        }
        let ghost pairs = attr_pairs(attrs@);
        let ghost m0 = self.model();
        let n = attrs.len();
        let mut i: usize = 0;
        while i < n
            invariant
                n == attrs@.len(),
                i <= n,
                pairs == attr_pairs(attrs@),
                !m0.srs_taken,
                self.records@ == old(self).records@,
                self.next_record_number == old(self).next_record_number,
                self.in_feature == old(self).in_feature,
                self.path@ == old(self).path@,
                self.in_feature_member == old(self).in_feature_member,
                self.text_buf@ == old(self).text_buf@,
                self.model() == match last_srs(pairs.take(i as int)) {
                    Some(v) => GmlModel { srs: Some(spec_utf8_lossy(v)), srs_taken: true, ..m0 },
                    None => m0,
                },
            decreases n - i,
        {
            proof {
                assert(pairs.take(i + 1).drop_last() =~= pairs.take(i as int));
                assert(pairs.take(i + 1).last() == pairs[i as int]);
            }
            if tag_is(local_name(attrs[i].0.as_slice()), "srsName") {
                self.srs_name = Some(utf8_to_string_lossy(attrs[i].1.as_slice()));
                self.srs_captured = true;
            }
            i = i + 1;
        }
        proof {
            assert(pairs.take(n as int) =~= pairs);
        }
    }

    /// A start tag inside a feature that names a GML element: geometry
    /// kinds and rings; a `GeometryCollection` is an error.
    #[verifier::rlimit(80)]
    fn geometry_start(&mut self, local: &[u8], attrs: &Vec<(Vec<u8>, Vec<u8>)>) -> (r: Result<(), ShapefileError>)
        requires
            old(self).wf(),
        ensures
            final(self).wf(),
            final(self).records@ == old(self).records@,
            r is Ok <==> crate::gml_model::geometry_start(old(self).model(), local@, attr_pairs(attrs@)) is Some,
            r is Ok ==> final(self).model() == crate::gml_model::geometry_start(
                old(self).model(),
                local@,
                attr_pairs(attrs@),
            )->Some_0,
            r matches Err(e) ==> (e matches ShapefileError::InvalidGml { reason } && reason@ == geometry_collection_reason()),
    {
        if tag_is(local, "Point") {
            self.geom_state = GeomState::Point;
            self.extract_srs_name(attrs);
        } else if tag_is(local, "LineString") {
            if self.geom_state != GeomState::MultiCurve {
                self.geom_state = GeomState::LineString;
            }
            self.extract_srs_name(attrs);
        } else if tag_is(local, "Curve") {
            if self.geom_state != GeomState::MultiCurve {
                self.geom_state = GeomState::Curve;
            }
            self.extract_srs_name(attrs);
        } else if tag_is(local, "MultiCurve") {
            self.geom_state = GeomState::MultiCurve;
            self.extract_srs_name(attrs);
        } else if tag_is(local, "Polygon") {
            if self.geom_state != GeomState::MultiSurface {
                self.geom_state = GeomState::Polygon;
            }
            self.extract_srs_name(attrs);
        } else if tag_is(local, "Surface") {
            if self.geom_state != GeomState::MultiSurface {
                self.geom_state = GeomState::Surface;
            }
            self.extract_srs_name(attrs);
        } else if tag_is(local, "MultiSurface") {
            self.geom_state = GeomState::MultiSurface;
            self.extract_srs_name(attrs);
        } else if tag_is(local, "exterior") {
            self.in_exterior = true;
        } else if tag_is(local, "interior") {
            self.in_interior = true;
        } else if tag_is(local, "GeometryCollection") {
            return Err(
                ShapefileError::InvalidGml {
                    reason: "GeometryCollection is not supported".to_string(),
                },
            );
        }
        Ok(())
    }

    /// A start tag: tracks where the parser is, starts features and
    /// geometries. A `GeometryCollection` inside a feature is an error.
    #[verifier::rlimit(40)]
    fn handle_start(&mut self, tag: &[u8], attrs: &Vec<(Vec<u8>, Vec<u8>)>) -> (r: Result<(), ShapefileError>)
        requires
            old(self).wf(),
        ensures
            final(self).wf(),
            final(self).records@ == old(self).records@,
            r is Ok <==> start_step(old(self).model(), tag@, attr_pairs(attrs@)) is Some,
            r is Ok ==> final(self).model() == start_step(old(self).model(), tag@, attr_pairs(attrs@))->Some_0,
            r matches Err(e) ==> (e matches ShapefileError::InvalidGml { reason } && reason@ == geometry_collection_reason()),
    {
        proof {
            lemma_name_lengths();
        }
        let local = local_name(tag);
        let is_gml = gml_prefixed(tag);
        let local_str = utf8_to_string_lossy(local);
        self.path.push(local_str.clone());
        self.text_buf = String::new();
        if is_gml && tag_is(local, "boundedBy") {
            self.in_bounded_by = true;
        } else if is_gml && tag_is(local, "Envelope") && self.in_bounded_by {
            self.in_envelope = true;
        } else if is_gml && tag_is(local, "lowerCorner") && self.in_envelope {
            self.in_lower_corner = true;
        } else if is_gml && tag_is(local, "upperCorner") && self.in_envelope {
            self.in_upper_corner = true;
        } else if is_gml && (tag_is(local, "featureMember") || tag_is(local, "featureMembers")) {
            self.in_feature_member = true;
        } else if self.in_feature_member && !self.in_feature && !is_gml {
            self.in_feature = true;
            self.feature_depth = self.path.len();
            self.feature_type = Some(local_str);
        } else if self.in_feature && is_gml {
            return self.geometry_start(local, attrs);
        }
        Ok(())
    }

    /// A self-closing tag: a `GeometryCollection` inside a feature is an
    /// error; an empty attribute element outside any geometry sets that
    /// attribute to `Null`.
    fn handle_empty(&mut self, tag: &[u8]) -> (r: Result<(), ShapefileError>)
        requires
            old(self).wf(),
        ensures
            final(self).wf(),
            final(self).records@ == old(self).records@,
            final(self).in_feature == old(self).in_feature,
            final(self).path@ == old(self).path@,
            r is Err <==> (old(self).in_feature && is_gml_tag(tag@) && is_tag(
                spec_local_name(tag@),
                "GeometryCollection",
            )),
            r matches Err(e) ==> (e matches ShapefileError::InvalidGml { reason } && reason@ == geometry_collection_reason()),
            (old(self).in_feature && !is_gml_tag(tag@) && old(self).geom_state == GeomState::Absent)
                ==> final(self).attributes@ == old(self).attributes@.insert(
                spec_utf8_lossy(spec_local_name(tag@)),
                AttributeValue::Null,
            ),
            !(old(self).in_feature && !is_gml_tag(tag@) && old(self).geom_state == GeomState::Absent)
                ==> final(self).attributes@ == old(self).attributes@,
            r is Ok <==> empty_step(old(self).model(), tag@) is Some,
            r is Ok ==> final(self).model() == empty_step(old(self).model(), tag@)->Some_0,
    {
        proof {
            lemma_name_lengths();
        }
        let local = local_name(tag);
        let is_gml = gml_prefixed(tag);
        if is_gml && (tag_is(local, "featureMember") || tag_is(local, "featureMembers")) {
        } else if self.in_feature && is_gml && tag_is(local, "GeometryCollection") {
            return Err(
                ShapefileError::InvalidGml {
                    reason: "GeometryCollection is not supported".to_string(),
                },
            );
        } else if self.in_feature && !is_gml && self.geom_state == GeomState::Absent {
            let local_str = utf8_to_string_lossy(local);
            proof {
                crate::gml_model::lemma_attrs_v_insert(self.attributes@, local_str@, AttributeValue::Null);
            }
            self.attributes.insert(local_str, AttributeValue::Null);
        }
        Ok(())
    }

    /// Character data: appended to the text of the current element.
    fn handle_text(&mut self, text: &str)
        requires
            old(self).wf(),
        ensures
            final(self).wf(),
            final(self).records@ == old(self).records@,
            final(self).in_feature == old(self).in_feature,
            final(self).path@ == old(self).path@,
            final(self).text_buf@ == old(self).text_buf@ + text@,
            final(self).model() == text_step(old(self).model(), text@),
    {
        self.text_buf.append(text);
    }

    /// The parts of the state that only finishing a feature changes.
    spec fn same_frame(&self, other: &GmlState) -> bool {
        &&& self.records@ == other.records@
        &&& self.next_record_number == other.next_record_number
        &&& self.path@ == other.path@
        &&& self.in_feature == other.in_feature
        &&& self.in_feature_member == other.in_feature_member
        &&& self.text_buf@ == other.text_buf@
    }

    /// The end of an envelope corner stores the corner's position.
    fn end_envelope_part(&mut self, local: &[u8], is_gml: bool)
        ensures
            final(self).same_frame(old(self)),
            final(self).attributes@ == old(self).attributes@,
            final(self).model() == envelope_end(old(self).model(), local@, is_gml),
    {
        if is_gml && tag_is(local, "lowerCorner") && self.in_lower_corner {
            self.envelope_lower = match parse_pos(self.text_buf.as_str()) {
                Ok(p) => Some(p),
                Err(_) => None,
            };
            self.in_lower_corner = false;
        } else if is_gml && tag_is(local, "upperCorner") && self.in_upper_corner {
            self.envelope_upper = match parse_pos(self.text_buf.as_str()) {
                Ok(p) => Some(p),
                Err(_) => None,
            };
            self.in_upper_corner = false;
        } else if is_gml && tag_is(local, "Envelope") {
            self.in_envelope = false;
        } else if is_gml && tag_is(local, "boundedBy") {
            self.in_bounded_by = false;
        }
    }

    /// The end of a coordinate element: its points join the current list.
    #[verifier::rlimit(40)]
    fn end_coordinates(&mut self, local: &[u8])
        requires
            is_tag(local@, "pos") || is_tag(local@, "posList") || is_tag(local@, "coordinates"),
        ensures
            final(self).same_frame(old(self)),
            final(self).attributes@ == old(self).attributes@,
            final(self).model() == geometry_end(old(self).model(), local@),
    {
        let ghost text = self.text_buf@;
        let ghost m0 = self.model();
        if tag_is(local, "pos") {
            if let Ok(pt) = parse_pos(self.text_buf.as_str()) {
                proof {
                    crate::gml_model::lemma_pvs_push(self.points@, pt);
                }
                self.points.push(pt);
                assert(self.model() == geometry_end(m0, local@));
            }
        } else if tag_is(local, "posList") {
            if let Ok(pts) = parse_pos_list(self.text_buf.as_str()) {
                proof {
                    lemma_pos_list_v(text, pts@);
                    crate::gml_model::lemma_pvs_add(self.points@, pts@);
                }
                self.extend_points(pts);
                assert(self.model() == geometry_end(m0, local@));
            }
        } else if tag_is(local, "coordinates") {
            if let Ok(pts) = parse_coordinates(self.text_buf.as_str()) {
                proof {
                    lemma_coords_v(text, pts@);
                    crate::gml_model::lemma_pvs_add(self.points@, pts@);
                }
                self.extend_points(pts);
                assert(self.model() == geometry_end(m0, local@));
            }
        }
    }

    /// The end of a line, ring or polygon element inside a feature.
    #[verifier::rlimit(40)]
    fn end_shape(&mut self, local: &[u8])
        requires
            !(is_tag(local@, "pos") || is_tag(local@, "posList") || is_tag(local@, "coordinates")),
        ensures
            final(self).same_frame(old(self)),
            final(self).attributes@ == old(self).attributes@,
            final(self).model() == geometry_end(old(self).model(), local@),
    {
        let ghost m0 = self.model();
        if tag_is(local, "LineString") || tag_is(local, "Curve") {
            if self.geom_state == GeomState::MultiCurve && self.points.len() > 0 {
                let mut pts: Vec<Point> = Vec::new();
                core::mem::swap(&mut pts, &mut self.points);
                proof {
                    crate::gml_model::lemma_vecs_v_push(self.line_parts@, pts);
                    assert(pvs(self.points@) =~= Seq::<crate::gml_model::PointV>::empty());
                }
                self.line_parts.push(pts);
                assert(self.model() == geometry_end(m0, local@));
            }
        } else if tag_is(local, "LinearRing") {
            if self.in_exterior {
                let mut pts: Vec<Point> = Vec::new();
                core::mem::swap(&mut pts, &mut self.points);
                proof {
                    assert(pvs(self.points@) =~= Seq::<crate::gml_model::PointV>::empty());
                }
                self.exterior_ring = Some(pts);
                assert(self.model() == geometry_end(m0, local@));
            } else if self.in_interior {
                let mut pts: Vec<Point> = Vec::new();
                core::mem::swap(&mut pts, &mut self.points);
                proof {
                    crate::gml_model::lemma_vecs_v_push(self.interior_rings@, pts);
                    assert(pvs(self.points@) =~= Seq::<crate::gml_model::PointV>::empty());
                }
                self.interior_rings.push(pts);
                assert(self.model() == geometry_end(m0, local@));
            }
        } else if tag_is(local, "exterior") {
            self.in_exterior = false;
        } else if tag_is(local, "interior") {
            self.in_interior = false;
        } else if tag_is(local, "Polygon") || tag_is(local, "Surface") {
            if self.geom_state == GeomState::MultiSurface {
                let mut ext: Option<Vec<Point>> = None;
                core::mem::swap(&mut ext, &mut self.exterior_ring);
                let mut ints: Vec<Vec<Point>> = Vec::new();
                core::mem::swap(&mut ints, &mut self.interior_rings);
                let ghost ext_v: Option<Seq<Point>> = match ext {
                    Some(ref e) => Some(e@),
                    None => None,
                };
                proof {
                    lemma_polygon_v(ext_v, ints@);
                    assert(vecs_v(self.interior_rings@) =~= Seq::<Seq<crate::gml_model::PointV>>::empty());
                }
                if let Some(poly) = build_polygon(ext, ints) {
                    proof {
                        crate::gml_model::lemma_polys_v_push(self.surface_polygons@, poly);
                    }
                    self.surface_polygons.push(poly);
                }
                assert(self.model() == geometry_end(m0, local@));
            }
        }
    }

    /// The end of a GML element inside a feature: coordinates join the
    /// current list, finished lines and rings are set aside.
    fn end_geometry_part(&mut self, local: &[u8])
        ensures
            final(self).same_frame(old(self)),
            final(self).attributes@ == old(self).attributes@,
            final(self).model() == geometry_end(old(self).model(), local@),
    {
        if tag_is(local, "pos") || tag_is(local, "posList") || tag_is(local, "coordinates") {
            self.end_coordinates(local);
        } else {
            self.end_shape(local);
        }
    }

    /// The end of a direct child of the feature that is not a GML element:
    /// its trimmed text, if any, becomes the attribute of that name.
    fn end_attribute(&mut self, local_str: String)
        requires
            old(self).in_feature,
        ensures
            final(self).same_frame(old(self)),
            trim_seq(old(self).text_buf@).len() > 0 ==> final(self).attributes@.contains_key(local_str@)
                && value_is(final(self).attributes@[local_str@], old(self).text_buf@),
            trim_seq(old(self).text_buf@).len() == 0 ==> final(self).attributes@ == old(self).attributes@,
            final(self).model() == crate::gml_model::attribute_end(old(self).model(), local_str@),
    {
        let trimmed = trim_chars(&chars_of(self.text_buf.as_str()));
        if trimmed.len() > 0 {
            let text = string_from_chars(trimmed.as_slice());
            let val = parse_attribute_value(text.as_str());
            proof {
                crate::text::lemma_trim_idempotent(self.text_buf@);
                crate::gml_model::lemma_attrs_v_insert(self.attributes@, local_str@, val);
            }
            self.attributes.insert(local_str, val);
        }
    }

    /// The end of a feature member: its feature, if any, is finished and
    /// forgotten.
    #[verifier::rlimit(40)]
    fn end_member(&mut self) -> (r: Result<(), ShapefileError>)
        requires
            old(self).wf(),
        ensures
            final(self).wf(),
            final(self).records@.take(old(self).records@.len() as int) == old(self).records@,
            r matches Err(e) ==> e is InvalidGml,
            ({
                let f = if old(self).model().in_feature {
                    crate::gml_model::finish_feature(old(self).model())
                } else {
                    Some(old(self).model())
                };
                &&& r is Ok <==> f is Some
                &&& r is Ok ==> final(self).model() == crate::gml_model::reset_feature(
                    GmlModel { in_member: false, ..f->Some_0 },
                )
            }),
    {
        let mut result: Result<(), ShapefileError> = Ok(());
        if self.in_feature {
            let ghost before = *self;
            result = finalize_feature(self);
            proof {
                lemma_feature_geoms_v(before);
                if result is Ok {
                    lemma_finalize_model(before, *self);
                }
            }
        }
        self.in_feature_member = false;
        self.reset_feature();
        assert(self.records@.take(old(self).records@.len() as int) =~= old(self).records@);
        result
    }

    /// An end tag: collects coordinates, closes rings, lines and polygons,
    /// captures attribute text, and finishes the feature at the end of its
    /// feature member.
    #[verifier::rlimit(80)]
    fn handle_end(&mut self, tag: &[u8]) -> (r: Result<(), ShapefileError>)
        requires
            old(self).wf(),
        ensures
            final(self).wf(),
            r matches Err(e) ==> e is InvalidGml,
            r is Ok <==> end_step(old(self).model(), tag@) is Some,
            r is Ok ==> final(self).model() == end_step(old(self).model(), tag@)->Some_0,
    {
        let local = local_name(tag);
        let is_gml = gml_prefixed(tag);
        let local_str = utf8_to_string_lossy(local);
        self.end_envelope_part(local, is_gml);
        if self.in_feature && is_gml {
            self.end_geometry_part(local);
        }
        if self.in_feature && !is_gml && self.path.len() > self.feature_depth && self.path.len() - 1
            == self.feature_depth && !same_name(&self.feature_type, &local_str) {
            self.end_attribute(local_str);
        }
        let mut result: Result<(), ShapefileError> = Ok(());
        if is_gml && (tag_is(local, "featureMember") || tag_is(local, "featureMembers")) {
            result = self.end_member();
        }
        self.path.pop();
        self.text_buf = String::new();
        result
    }

    /// Appends points to the current coordinate list.
    fn extend_points(&mut self, pts: Vec<Point>)
        ensures
            final(self).records@ == old(self).records@,
            final(self).next_record_number == old(self).next_record_number,
            final(self).in_feature == old(self).in_feature,
            final(self).path@ == old(self).path@,
            final(self).in_feature_member == old(self).in_feature_member,
            final(self).points@ == old(self).points@ + pts@,
            final(self).text_buf@ == old(self).text_buf@,
            final(self).attributes@ == old(self).attributes@,
            final(self).model() == (GmlModel { points: pvs(old(self).points@ + pts@), ..old(self).model() }),
    {
        let n = pts.len();
        let mut i: usize = 0;
        let ghost p0 = self.points@;
        while i < n
            invariant
                n == pts@.len(),
                i <= n,
                self.points@ == p0 + pts@.take(i as int),
                self.records@ == old(self).records@,
                self.next_record_number == old(self).next_record_number,
                self.in_feature == old(self).in_feature,
                self.path@ == old(self).path@,
                self.in_feature_member == old(self).in_feature_member,
                self.text_buf@ == old(self).text_buf@,
                self.attributes@ == old(self).attributes@,
                self.model() == (GmlModel { points: pvs(self.points@), ..old(self).model() }),
            decreases n - i,
        {
            self.points.push(pts[i].clone());
            i = i + 1;
            assert(self.points@ =~= p0 + pts@.take(i as int));
        }
        assert(pts@.take(n as int) =~= pts@);
    }
}

/// Whether the optional name holds exactly `name`.
fn same_name(a: &Option<String>, name: &String) -> (r: bool)
    ensures
        r == (a matches Some(s) && s@ == name@),
{
    match a {
        Some(s) => crate::text::str_eq(s.as_str(), name.as_str()),
        None => false,
    }
}

// ---------------------------------------------------------------------------
// The document
// ---------------------------------------------------------------------------

impl GmlState {
    /// The records, the envelope (when both corners parsed) and the SRS name.
    fn finish(self) -> (r: (Vec<ShapeRecord>, Option<BoundingBox>, Option<String>))
        requires
            self.wf(),
        ensures
            numbered(r.0@, (r.0@.len() + 1) as u32),
            r.0@ == self.spec_records(),
            records_v(r.0@) == self.model().records,
            envelope_v(r.1) == crate::gml_model::envelope_of(self.model()),
            opt_str(r.2) == self.model().srs,
    {
        let bbox = match (self.envelope_lower, self.envelope_upper) {
            (Some(lower), Some(upper)) => Some(
                BoundingBox { x_min: lower.x, y_min: lower.y, x_max: upper.x, y_max: upper.y },
            ),
            _ => None,
        };
        (self.records, bbox, self.srs_name)
    }
}

/// The corners of an envelope, as values.
pub open spec fn envelope_v(b: Option<BoundingBox>) -> Option<(crate::gml_model::PointV, crate::gml_model::PointV)> {
    match b {
        Some(bb) => Some(((bb.x_min@, bb.y_min@), (bb.x_max@, bb.y_max@))),
        None => None,
    }
}

/// Why a `GeometryCollection` is refused.
pub open spec fn geometry_collection_reason() -> Seq<char> {
    "GeometryCollection is not supported"@
}

/// What reading a document returns for where its events lead: its records
/// (numbered from 1), envelope and SRS name; `InvalidGml` for an invalid
/// document; the XML layer's error with its message.
pub open spec fn gml_outcome(
    r: Result<(Vec<ShapeRecord>, Option<BoundingBox>, Option<String>), ShapefileError>,
    run: GmlRun,
) -> bool {
    match run {
        GmlRun::Done(m) => {
            &&& r matches Ok((recs, b, srs))
            &&& numbered(recs@, (recs@.len() + 1) as u32)
            &&& records_v(recs@) == m.records
            &&& envelope_v(b) == crate::gml_model::envelope_of(m)
            &&& opt_str(srs) == m.srs
        },
        GmlRun::Invalid(c) => r matches Err(ShapefileError::InvalidGml { reason }) && (c is GeometryCollection
            ==> reason@ == geometry_collection_reason()),
        GmlRun::Xml(msg) => r matches Err(e) && e matches ShapefileError::GmlXmlError(t) && t@ == msg,
    }
}

/// Reads a GML document given as its XML events: every feature member
/// becomes one record (a MultiSurface one per surface), numbered from 1 in
/// document order; also the envelope of `gml:boundedBy`, when both of its
/// corners parse, and the `srsName` of the first geometry element that has one. Stops at the first error.
pub fn read_gml_events(events: &Vec<GmlEvent>) -> (r: Result<
    (Vec<ShapeRecord>, Option<BoundingBox>, Option<String>),
    ShapefileError,
>)
    ensures
        gml_outcome(r, run_events(initial_model(), events_v(events@))),
{
    let mut state = GmlState::new();
    let n = events.len();
    let mut i: usize = 0;
    proof {
        assert(events_v(events@).skip(0) =~= events_v(events@));
    }
    while i < n
        invariant
            n == events@.len(),
            i <= n,
            state.wf(),
            run_events(initial_model(), events_v(events@)) == run_events(
                state.model(),
                events_v(events@).skip(i as int),
            ),
        decreases n - i,
    {
        proof {
            assert(events_v(events@).skip(i as int)[0] == events@[i as int]@);
            assert(events_v(events@).skip(i as int).drop_first() =~= events_v(events@).skip(i + 1));
        }
        match &events[i] {
            GmlEvent::Start(name, attrs) => {
                if let Err(e) = state.handle_start(name.as_slice(), attrs) {
                    return Err(e);
                }
            },
            GmlEvent::Empty(name) => {
                if let Err(e) = state.handle_empty(name.as_slice()) {
                    return Err(e);
                }
            },
            GmlEvent::Text(t) => {
                state.handle_text(t.as_str());
            },
            GmlEvent::End(name) => {
                if let Err(e) = state.handle_end(name.as_slice()) {
                    return Err(e);
                }
            },
            GmlEvent::XmlError(msg) => {
                return Err(ShapefileError::GmlXmlError(msg.clone()));
            },
        }
        i = i + 1;
    }
    proof {
        assert(events_v(events@).skip(n as int) =~= Seq::<GmlEventV>::empty());
    }
    Ok(state.finish())
}

/// Whether an error event, if there is one, comes last: reading stops at
/// the first error.
pub open spec fn error_only_last(evs: Seq<GmlEvent>) -> bool {
    forall|k: int| 0 <= k < evs.len() - 1 ==> !(#[trigger] evs[k] is XmlError)
}

/// The error that ends a document read with more events than it has bytes.
pub open spec fn too_many_events() -> GmlEventV {
    GmlEventV::XmlError("more XML events than document bytes"@)
}

/// The events of `doc` from its `k`-th read on, with `budget` reads left
/// after this one: up to the end of the document, or up to and including
/// the first error; ignored events are left out. When the budget runs out
/// before the end, an error ends the list.
pub open spec fn token_events(doc: Seq<u8>, k: nat, budget: nat) -> Seq<GmlEventV>
    decreases budget,
{
    match spec_xml_token(doc, k) {
        XmlTokenV::Eof => Seq::empty(),
        XmlTokenV::Event(GmlEventV::XmlError(m)) => seq![GmlEventV::XmlError(m)],
        XmlTokenV::Event(e) => if budget == 0 {
            seq![e, too_many_events()]
        } else {
            seq![e] + token_events(doc, k + 1, (budget - 1) as nat)
        },
        XmlTokenV::Skip => if budget == 0 {
            seq![too_many_events()]
        } else {
            token_events(doc, k + 1, (budget - 1) as nat)
        },
    }
}

/// The events of an XML document as quick-xml reads them: at most one read
/// per byte of the document.
pub open spec fn xml_event_list(doc: Seq<u8>) -> Seq<GmlEventV> {
    token_events(doc, 0, doc.len())
}

/// The events of an XML document as quick-xml reads them, up to its end or
/// up to and including the first error.
fn xml_events(xml: &[u8]) -> (r: Vec<GmlEvent>)
    ensures
        events_v(r@) == xml_event_list(xml@),
        error_only_last(r@),
{
    let mut tokens = xml_tokens(xml);
    let mut events: Vec<GmlEvent> = Vec::new();
    // quick-xml consumes at least one byte for every event before `Eof`, so
    // the document's length bounds the number of reads; past it, reading
    // stops with an error.
    let mut budget: usize = xml.len();
    proof {
        assert(events_v(events@) =~= Seq::<GmlEventV>::empty());
        assert(Seq::<GmlEventV>::empty() + xml_event_list(xml@) =~= xml_event_list(xml@));
    }
    loop
        invariant
            tokens.doc() == xml@,
            forall|k: int| 0 <= k < events@.len() ==> !(#[trigger] events@[k] is XmlError),
            events_v(events@) + token_events(xml@, tokens.reads(), budget as nat) == xml_event_list(xml@),
        decreases budget,
    {
        let ghost before = events_v(events@);
        let ghost k = tokens.reads();
        let token = next_token(&mut tokens);
        let ghost tv = token@;
        let next = match token {
            Eof => {
                proof {
                    assert(before + Seq::<GmlEventV>::empty() =~= before);
                }
                return events;
            },
            Error(msg) => {
                events.push(GmlEvent::XmlError(msg));
                proof {
                    assert(events_v(events@) =~= before.push(events@.last()@));
                    assert(before + token_events(xml@, k, budget as nat) =~= events_v(events@));
                }
                return events;
            },
            Skip => None,
            Start(t, a) => Some(GmlEvent::Start(t, a)),
            Empty(t) => Some(GmlEvent::Empty(t)),
            Text(x) => Some(GmlEvent::Text(x)),
            End(t) => Some(GmlEvent::End(t)),
        };
        match next {
            Some(e) => {
                assert(tv == XmlTokenV::Event(e@));
                events.push(e);
                proof {
                    assert(events_v(events@) =~= before.push(events@.last()@));
                }
                if budget == 0 {
                    events.push(GmlEvent::XmlError("more XML events than document bytes".to_string()));
                    proof {
                        broadcast use vstd::string::to_string_from_display_ensures_for_str;
                        let ev = events_v(events@);
                        assert(ev =~= before + seq![events@[events@.len() - 2]@, too_many_events()]);
                        assert(before + token_events(xml@, k, 0) =~= ev);
                    }
                    return events;
                }
                proof {
                    assert(before + token_events(xml@, k, budget as nat) =~= events_v(events@)
                        + token_events(xml@, k + 1, (budget - 1) as nat));
                }
            },
            None => {
                if budget == 0 {
                    events.push(GmlEvent::XmlError("more XML events than document bytes".to_string()));
                    proof {
                        broadcast use vstd::string::to_string_from_display_ensures_for_str;
                        assert(events_v(events@) =~= before.push(too_many_events()));
                        assert(before + token_events(xml@, k, 0) =~= events_v(events@));
                    }
                    return events;
                }
            },
        }
        budget = budget - 1;
    }
}

/// Reads a GML document: quick-xml splits it into events, which are read as
/// `read_gml_events` reads them.
pub fn parse_gml(xml: &[u8]) -> (r: Result<(Vec<ShapeRecord>, Option<BoundingBox>, Option<String>), ShapefileError>)
    ensures
        gml_outcome(r, run_events(initial_model(), xml_event_list(xml@))),
        r matches Ok((recs, _b, _s)) ==> forall|k: int|
            0 <= k < recs@.len() ==> (#[trigger] recs@[k]).record_number == k + 1,
        r matches Err(e) ==> e is InvalidGml || e is GmlXmlError,
{
    let events = xml_events(xml);
    read_gml_events(&events)
}

/// What building a reader returns for where a document's events lead: a
/// reader whose records (numbered from 1), envelope and SRS name are those
/// reached; `InvalidGml`; or the XML layer's error with its message.
pub open spec fn reader_outcome(r: Result<GmlReader, ShapefileError>, run: GmlRun) -> bool {
    match run {
        GmlRun::Done(m) => {
            &&& r matches Ok(rd)
            &&& rd.numbered_records()
            &&& records_v(rd.spec_records()) == m.records
            &&& envelope_v(rd.spec_envelope()) == crate::gml_model::envelope_of(m)
            &&& rd.spec_srs_name() == m.srs
        },
        GmlRun::Invalid(c) => r matches Err(ShapefileError::InvalidGml { reason }) && (c is GeometryCollection
            ==> reason@ == geometry_collection_reason()),
        GmlRun::Xml(msg) => r matches Err(e) && e matches ShapefileError::GmlXmlError(t) && t@ == msg,
    }
}

/// A reader over the features of a GML document (the JPGIS 2.1 / KSJ
/// profile): points, line strings, curves, multi-curves, polygons, surfaces
/// and multi-surfaces; a `GeometryCollection` is an error.
pub struct GmlReader {
    records: Vec<ShapeRecord>,
    envelope: Option<BoundingBox>,
    srs_name: Option<String>,
}

impl GmlReader {
    /// The records, in document order.
    pub closed spec fn spec_records(&self) -> Seq<ShapeRecord> {
        self.records@
    }

    /// The envelope of the document, if it declared one.
    pub closed spec fn spec_envelope(&self) -> Option<BoundingBox> {
        self.envelope
    }

    /// The SRS name found in the document, if any.
    pub closed spec fn spec_srs_name(&self) -> Option<Seq<char>> {
        match &self.srs_name {
            Some(s) => Some(s@),
            None => None,
        }
    }

    /// The records are numbered 1, 2, ... in order.
    pub open spec fn numbered_records(&self) -> bool {
        forall|k: int|
            0 <= k < self.spec_records().len() ==> (#[trigger] self.spec_records()[k]).record_number
                == k + 1
    }

    /// Builds a reader from the outcome of reading a document.
    fn from_outcome(
        r: Result<(Vec<ShapeRecord>, Option<BoundingBox>, Option<String>), ShapefileError>,
        Ghost(run): Ghost<GmlRun>,
    ) -> (out: Result<Self, ShapefileError>)
        requires
            gml_outcome(r, run),
        ensures
            reader_outcome(out, run),
    {
        match r {
            Ok((records, envelope, srs_name)) => Ok(GmlReader { records, envelope, srs_name }),
            Err(e) => Err(e),
        }
    }

    /// Reads a GML document given as its XML events, as `read_gml_events`
    /// reads them.
    pub fn from_events(events: &Vec<GmlEvent>) -> (r: Result<Self, ShapefileError>)
        ensures
            reader_outcome(r, run_events(initial_model(), events_v(events@))),
    {
        let r = read_gml_events(events);
        GmlReader::from_outcome(r, Ghost(run_events(initial_model(), events_v(events@))))
    }

    /// Reads a GML document from its bytes.
    pub fn from_bytes(xml: &[u8]) -> (r: Result<Self, ShapefileError>)
        ensures
            reader_outcome(r, run_events(initial_model(), xml_event_list(xml@))),
            r matches Ok(rd) ==> rd.numbered_records(),
            r matches Err(e) ==> e is InvalidGml || e is GmlXmlError,
    {
        let events = xml_events(xml);
        GmlReader::from_events(&events)
    }

    /// Parses a GML string.
    pub fn from_str(xml: &str) -> (r: Result<Self, ShapefileError>)
        ensures
            reader_outcome(r, run_events(initial_model(), xml_event_list(xml.spec_bytes()))),
            r matches Ok(rd) ==> rd.numbered_records(),
            r matches Err(e) ==> e is InvalidGml || e is GmlXmlError,
    {
        GmlReader::from_bytes(xml.as_bytes())
    }

    /// The envelope declared in `gml:boundedBy`, when both corners parsed.
    pub fn envelope(&self) -> (r: Option<&BoundingBox>)
        ensures
            r is Some <==> self.spec_envelope() is Some,
            r matches Some(b) ==> self.spec_envelope() == Some(*b),
    {
        match &self.envelope {
            Some(b) => Some(b),
            None => None,
        }
    }

    /// Returns the number of records.
    pub fn len(&self) -> (r: usize)
        ensures
            r == self.spec_records().len(),
    {
        self.records.len()
    }

    /// Returns `true` if there are no records.
    pub fn is_empty(&self) -> (r: bool)
        ensures
            r == (self.spec_records().len() == 0),
    {
        self.records.len() == 0
    }

    /// Returns the SRS name extracted from the first geometry element, if any.
    pub fn srs_name(&self) -> (r: Option<&str>)
        ensures
            match self.spec_srs_name() {
                Some(s) => r matches Some(t) && t@ == s,
                None => r is None,
            },
    {
        match &self.srs_name {
            Some(s) => Some(s.as_str()),
            None => None,
        }
    }

    /// Returns all records, or at most `limit` records if specified.
    pub fn records(&self, limit: Option<usize>) -> (r: Vec<&ShapeRecord>)
        ensures
            record_derefs(r@) == self.spec_records().take(
                limited(limit, self.spec_records().len() as int),
            ),
    {
        take_records(&self.records, limit)
    }

    /// Returns every record, in order.
    pub fn iter_records(&self) -> (r: Vec<&ShapeRecord>)
        ensures
            record_derefs(r@) == self.spec_records(),
    {
        let r = take_records(&self.records, None);
        assert(self.records@.take(self.records@.len() as int) =~= self.records@);
        r
    }

    /// Returns the record at the given index, or `None` if out of bounds.
    pub fn get(&self, index: usize) -> (r: Option<&ShapeRecord>)
        ensures
            index < self.spec_records().len() ==> r == Some(&self.spec_records()[index as int]),
            index >= self.spec_records().len() ==> r is None,
    {
        if index < self.records.len() {
            Some(&self.records[index])
        } else {
            None
        }
    }

    /// Filters records where a Text attribute starts with the given prefix.
    pub fn filter_by_attribute_starts_with(&self, field: &str, prefix: &str) -> (r: Vec<&ShapeRecord>)
        ensures
            record_derefs(r@) == keep(
                self.spec_records(),
                |rec: ShapeRecord| field_starts_with(rec.attributes@, field@, prefix@),
            ),
    {
        records_starting_with(&self.records, field, prefix)
    }

    /// The numbers that `describe` summarises: fails with `FieldNotFound`
    /// when no record has `field`, and with `DescribeOnNonNumericField` when
    /// none of its values is a number.
    pub fn numeric_values(&self, field: &str) -> (r: Result<Vec<Number>, ShapefileError>)
        ensures
            !some_record_has(self.spec_records(), field@) ==> (r matches Err(e) && e is FieldNotFound),
            some_record_has(self.spec_records(), field@) ==> match r {
                Ok(v) => v@ == record_numbers(self.spec_records(), field@) && v@.len() > 0,
                Err(e) => e is DescribeOnNonNumericField && record_numbers(
                    self.spec_records(),
                    field@,
                ).len() == 0,
            },
    {
        collect_numeric_values(&self.records, field)
    }
}

/// A `Curve` element is read as a `LineString` is: from any state that is
/// not inside a MultiCurve, after either start tag (with the same
/// attributes) and the same points, the feature yields the same geometries,
/// and with at least one point that is one polyline of one part holding
/// exactly those points.
pub proof fn lemma_curve_reads_as_line_string(
    m: GmlModel,
    curve: Seq<u8>,
    line: Seq<u8>,
    attrs: Seq<(Seq<u8>, Seq<u8>)>,
    pts: Seq<crate::gml_model::PointV>,
)
    requires
        is_tag(curve, "Curve"),
        is_tag(line, "LineString"),
        m.geom != GeomState::MultiCurve,
    ensures
        crate::gml_model::geometry_start(m, curve, attrs) matches Some(c) && crate::gml_model::geometry_start(
            m,
            line,
            attrs,
        ) matches Some(l) && crate::gml_model::feature_geoms_v(GmlModel { points: pts, ..c })
            == crate::gml_model::feature_geoms_v(GmlModel { points: pts, ..l }) && (pts.len() > 0
            ==> crate::gml_model::feature_geoms_v(GmlModel { points: pts, ..c }) == seq![
            crate::gml_model::GeomV::Polyline(seq![pts]),
        ]),
{
    lemma_name_lengths();
    reveal_strlit("Curve");
    reveal_strlit("Point");
    vstd::utf8::is_ascii_chars_encode_utf8("Curve"@);
    vstd::utf8::is_ascii_chars_encode_utf8("Point"@);
    assert("Curve"@[0] == 'C');
    assert("Point"@[0] == 'P');
    assert(curve[0] != vstd::utf8::encode_utf8("Point"@)[0]);
    assert(!is_tag(curve, "Point"));
    assert(!is_tag(curve, "LineString"));
    assert(!is_tag(line, "Point"));
}

} // verus!
