//! The Shapefile reader: a main file (.shp) with its optional index (.shx),
//! its attribute table (.dbf), and the optional code page (.cpg) and
//! projection (.prj) files, read together record by record.
use crate::error::ShapefileError;
use crate::models::attribute::{entries_map, AttributeValue, Attributes, FieldDef};
use crate::models::bbox::BoundingBox;
use crate::models::crs::Crs;
use crate::models::geometry::{Geometry, GeometryView};
use crate::models::record::{keep_starting_with, record_numbers, scan_numbers, ShapeRecord};
use crate::mvt_reader::{field_starts_with, keep};
use crate::number::Number;
use crate::parsers::cpg_parser::{cpg_label_of, CpgParser};
use crate::parsers::dbf_parser::{
    dbf_header_at, dbf_step, dbf_walk, entries_fit, field_views, fields_fit, lemma_dbf_step_bounds,
    lemma_dbf_walk_next, lemma_dbf_walk_stays, lemma_entries_fit_unique, record_attrs, record_data, record_outcome, DbfHeaderView, DbfParser,
    DbfStep, resolved_label, shift_jis_label,
};
use crate::parsers::prj_parser::PrjParser;
use crate::parsers::shp_parser::{
    lemma_record_end, stored_record_number,
    header_at, record_at, record_ok, records_ok_n, shx_at, shx_record_ok, HeaderOutcome,
    RecordOutcome, ShapeType, ShpParser, ShxOutcome,
};
use crate::text::{str_eq, trim_seq};
use vstd::prelude::*;

verus! {

/// Where the `k`-th record starts when reading sequentially from `p`.
pub open spec fn shp_offset(s: Seq<u8>, p: int, k: nat) -> int
    decreases k,
{
    if k == 0 {
        p
    } else {
        match record_at(s, shp_offset(s, p, (k - 1) as nat)) {
            RecordOutcome::Parsed(_, e) => e,
            _ => s.len() as int,
        }
    }
}

/// The geometry of the `k`-th record of the main file, if it parses.
pub open spec fn shp_geometry(s: Seq<u8>, k: nat) -> Option<GeometryView> {
    match record_at(s, shp_offset(s, 100, k)) {
        RecordOutcome::Parsed(g, _) => Some(g),
        _ => None,
    }
}

/// The label of the encoding that text fields are decoded with: the code
/// page file's label (its UTF-8 text, trimmed) when the encoding library
/// knows it, `Shift_JIS` otherwise.
pub open spec fn dbf_label_of(cpg: Option<Seq<u8>>) -> Seq<u8> {
    match cpg {
        Some(c) => cpg_label_of(c),
        None => shift_jis_label(),
    }
}

/// The bytes of an optional file.
pub open spec fn opt_bytes(f: Option<Vec<u8>>) -> Option<Seq<u8>> {
    match f {
        Some(v) => Some(v@),
        None => None,
    }
}

/// A shapefile's files open: the code page and projection files are UTF-8,
/// the index (if any) and the main file's header parse, and the attribute
/// table's header parses.
pub open spec fn open_succeeds(
    shp: Seq<u8>,
    shx: Option<Seq<u8>>,
    dbf: Seq<u8>,
    cpg: Option<Seq<u8>>,
    prj: Option<Seq<u8>>,
) -> bool {
    &&& (cpg matches Some(c) ==> vstd::utf8::valid_utf8(c))
    &&& (prj matches Some(p) ==> vstd::utf8::valid_utf8(p))
    &&& (shx matches Some(x) ==> shx_at(x) is Parsed)
    &&& header_at(shp, 0) is Parsed
    &&& dbf_header_at(dbf, 0) is Some
}

/// Reading a main-file record with outcome `o` fails with `e`.
pub open spec fn shp_read_fails(o: RecordOutcome, e: ShapefileError) -> bool {
    match o {
        RecordOutcome::Truncated => e is CorruptedFile,
        RecordOutcome::Unsupported(t) => e == ShapefileError::UnsupportedShapeType(t as i32),
        _ => false,
    }
}

/// Main entry point for reading ESRI Shapefiles.
pub struct ShapefileReader {
    shape_type: ShapeType,
    bbox: BoundingBox,
    crs: Option<Crs>,
    num_records: usize,
    shp_parser: ShpParser,
    dbf_parser: DbfParser,
    dbf_fields: Vec<FieldDef>,
    iter_index: u32,
}

impl ShapefileReader {
    /// The main file's bytes.
    pub closed spec fn shp_bytes(&self) -> Seq<u8> {
        self.shp_parser.bytes()
    }

    /// The index entries, when an index was given.
    pub closed spec fn shx_entries(&self) -> Option<Seq<(u64, u32)>> {
        self.shp_parser.shx_entries()
    }

    /// The attribute table's header.
    pub closed spec fn dbf_header(&self) -> Option<DbfHeaderView> {
        self.dbf_parser.header_view()
    }

    /// The label of the encoding that the attribute table's text fields are
    /// decoded with.
    pub closed spec fn dbf_label(&self) -> Seq<u8> {
        self.dbf_parser.label()
    }

    /// The number of records the attribute table declares.
    pub closed spec fn spec_len(&self) -> int {
        self.num_records as int
    }

    /// The shape type of the main file's header.
    pub closed spec fn spec_shape_type(&self) -> ShapeType {
        self.shape_type
    }

    /// The bounding box of the main file's header.
    pub closed spec fn spec_bbox(&self) -> BoundingBox {
        self.bbox
    }

    /// The coordinate reference system, if a projection file was given.
    pub closed spec fn spec_crs(&self) -> Option<Crs> {
        self.crs
    }

    /// The field definitions of the attribute table.
    pub closed spec fn spec_fields(&self) -> Seq<FieldDef> {
        self.dbf_fields@
    }

    /// The reader's parts agree: the attribute table's header is stored and
    /// matches the field list and record count.
    pub closed spec fn wf(&self) -> bool {
        &&& self.dbf_parser.header_view() matches Some(h)
        &&& field_views(self.dbf_fields@) == h.fields
        &&& self.num_records == h.num_records
        &&& self.dbf_parser.wf()
    }

    /// Reading `n` records from the start cannot panic: the main file's
    /// first `n` records are well formed, and the table's fields fit its
    /// record size.
    pub open spec fn readable(&self, n: int) -> bool {
        &&& records_ok_n(self.shp_bytes(), 100, n)
        &&& n > 0 ==> (self.dbf_header() matches Some(h) && fields_fit(h))
    }

    /// Whether the first `n` records read without a panic.
    pub fn can_read(&self, n: usize) -> (r: bool)
        ensures
            r == self.readable(n as int),
    {
        self.shp_parser.records_readable_from_start(n) && (n == 0 || self.dbf_parser.layout_fits())
    }

    /// Whether the next step of iteration reads without a panic.
    pub fn can_iterate(&self) -> (r: bool)
        requires
            self.wf(),
        ensures
            r == (record_ok(self.shp_bytes(), self.shp_pos()) && (self.dbf_header() matches Some(h)
                && fields_fit(h)) && self.spec_iter_index() <= self.spec_len()),
    {
        self.shp_parser.next_readable() && self.dbf_parser.layout_fits() && (self.iter_index as usize)
            <= self.num_records
    }

    /// Whether `get(index)` reads without a panic.
    pub fn can_get(&self, index: usize) -> (r: bool)
        requires
            index < usize::MAX,
        ensures
            r == (index < self.spec_len() ==> {
                &&& match self.shx_entries() {
                    Some(_) => shx_record_ok(self.shp_bytes(), self.shx_entries(), index as int),
                    None => records_ok_n(self.shp_bytes(), 100, index + 1),
                }
                &&& self.dbf_header() matches Some(h) && fields_fit(h)
            }),
    {
        if index >= self.num_records {
            return true;
        }
        let shp_ok = if self.shp_parser.has_shx() {
            self.shp_parser.entry_readable(index)
        } else {
            self.shp_parser.records_readable_from_start(index + 1)
        };
        shp_ok && self.dbf_parser.layout_fits()
    }

    /// The attribute table's bytes.
    pub closed spec fn dbf_bytes(&self) -> Seq<u8> {
        self.dbf_parser.bytes()
    }

    /// The step of the attribute table that yields its live record `k`
    /// (counting from 0), reading from the first record on.
    pub open spec fn table_step(&self, k: nat) -> DbfStep {
        let h = self.dbf_header()->Some_0;
        dbf_walk(self.dbf_bytes(), (33 + 32 * h.fields.len()) as int, 0, h, k)
    }

    /// `m` is the attribute map of the table's live record `k`.
    pub open spec fn has_attributes(&self, m: Map<Seq<char>, AttributeValue>, k: nat) -> bool {
        let h = self.dbf_header()->Some_0;
        &&& self.table_step(k) matches DbfStep::Record(q, _)
        &&& record_attrs(self.dbf_label(), h.fields, record_data(self.dbf_bytes(), q, h), m)
    }

    /// `rec` is record `k` (counting from 0): numbered as the header of the
    /// main file's `k`-th record stores it, with that record's geometry and
    /// the attributes of the table's `k`-th live record.
    pub open spec fn is_record(&self, rec: ShapeRecord, k: nat) -> bool {
        &&& rec.record_number == stored_record_number(self.shp_bytes(), shp_offset(self.shp_bytes(), 100, k))
        &&& Some(rec.geometry@) == shp_geometry(self.shp_bytes(), k)
        &&& self.has_attributes(rec.attributes@, k)
    }

    /// `rec` is what `get(index)` returns: the table's live record `index`
    /// with the main file's record that the index file's entry `index` points
    /// to, or without an index file the main file's record `index` read in
    /// sequence; numbered as that record's header stores it.
    pub open spec fn got_record(&self, rec: ShapeRecord, index: nat) -> bool {
        &&& self.has_attributes(rec.attributes@, index)
        &&& match self.shx_entries() {
            None => Some(rec.geometry@) == shp_geometry(self.shp_bytes(), index)
                && rec.record_number == stored_record_number(
                self.shp_bytes(),
                shp_offset(self.shp_bytes(), 100, index),
            ),
            Some(es) => record_at(self.shp_bytes(), es[index as int].0 as int) matches RecordOutcome::Parsed(
                g,
                _,
            ) && rec.geometry@ == g && rec.record_number == stored_record_number(
                self.shp_bytes(),
                es[index as int].0 as int,
            ),
        }
    }

    /// The index file's entry `index` points at the main file's record
    /// `index`, as sequential reading finds it.
    pub open spec fn index_agrees(&self, index: nat) -> bool {
        self.shx_entries() matches Some(es) ==> (index < es.len() && es[index as int].0 == shp_offset(
            self.shp_bytes(),
            100,
            index,
        ))
    }

    /// `all` holds every record, in order.
    pub open spec fn all_records(&self, all: Seq<ShapeRecord>) -> bool {
        &&& all.len() == self.spec_len()
        &&& forall|k: int| 0 <= k < all.len() ==> self.is_record(#[trigger] all[k], k as nat)
    }

    /// Reading the table's live record `k` fails with `e`: the table ends or
    /// is cut short before it, or one of its fields fails with `e`.
    pub open spec fn table_fails(&self, k: nat, e: ShapefileError) -> bool {
        let h = self.dbf_header()->Some_0;
        match self.table_step(k) {
            DbfStep::Record(q, _) => record_outcome(
                self.dbf_label(),
                h.fields,
                record_data(self.dbf_bytes(), q, h),
                Err::<Vec<(String, AttributeValue)>, ShapefileError>(e),
            ),
            DbfStep::Panics => false,
            _ => e is CorruptedFile,
        }
    }

    /// Reading record `k` fails with `e`: the main file's record `k` is cut
    /// short or of an unsupported type, or it parses and reading the table's
    /// live record `k` fails with `e`.
    pub open spec fn record_fails(&self, k: nat, e: ShapefileError) -> bool {
        match record_at(self.shp_bytes(), shp_offset(self.shp_bytes(), 100, k)) {
            RecordOutcome::Parsed(_, _) => self.table_fails(k, e),
            o => shp_read_fails(o, e),
        }
    }

    /// Opens a shapefile from the contents of its files: the main file, its
    /// optional index, the attribute table, and the optional code page and
    /// projection files. Fails as the first of them that is unreadable.
    pub fn open(
        shp: Vec<u8>,
        shx: Option<Vec<u8>>,
        dbf: Vec<u8>,
        cpg: Option<Vec<u8>>,
        prj: Option<Vec<u8>>,
    ) -> (r: Result<Self, ShapefileError>)
        requires
            shx matches Some(x) ==> !(shx_at(x@) is Overflows),
        ensures
            r is Ok <==> open_succeeds(shp@, opt_bytes(shx), dbf@, opt_bytes(cpg), opt_bytes(prj)),
            r matches Ok(rd) ==> {
                &&& rd.wf()
                &&& rd.readable(0)
                &&& rd.shp_bytes() == shp@
                &&& rd.spec_iter_index() == 0
                &&& rd.shx_entries() == match shx {
                    Some(x) => Some(shx_at(x@)->Parsed_0),
                    None => None::<Seq<(u64, u32)>>,
                }
                &&& rd.dbf_header() == dbf_header_at(dbf@, 0)
                &&& rd.dbf_label() == dbf_label_of(opt_bytes(cpg))
                &&& rd.spec_len() == rd.dbf_header()->Some_0.num_records
                &&& header_at(shp@, 0) matches HeaderOutcome::Parsed(t, _, b) && rd.spec_shape_type()
                    == t && rd.spec_bbox() == (BoundingBox {
                    x_min: Number::Bits(b[0] as u64),
                    y_min: Number::Bits(b[1] as u64),
                    x_max: Number::Bits(b[2] as u64),
                    y_max: Number::Bits(b[3] as u64),
                })
                &&& match prj {
                    Some(p) => rd.spec_crs() matches Some(c) && c.wkt@ == vstd::utf8::decode_utf8(p@),
                    None => rd.spec_crs() is None,
                }
            },
            (cpg matches Some(c) && !vstd::utf8::valid_utf8(c@)) ==> (r matches Err(e) && e is Io),
            (cpg matches Some(c) ==> vstd::utf8::valid_utf8(c@)) ==> {
                &&& (prj matches Some(p) && !vstd::utf8::valid_utf8(p@)) ==> (r matches Err(e) && e is Io)
                &&& (prj matches Some(p) ==> vstd::utf8::valid_utf8(p@)) ==> {
                    &&& (shx matches Some(x) && shx_at(x@) is Truncated) ==> (r matches Err(e) && e is CorruptedFile)
                    &&& shx matches Some(x) ==> (shx_at(x@) matches ShxOutcome::InvalidFileCode(c)
                        ==> r == Err::<Self, ShapefileError>(ShapefileError::InvalidFileCode { actual: c as i32 }))
                    &&& (shx matches Some(x) ==> shx_at(x@) is Parsed) ==> match header_at(shp@, 0) {
                        HeaderOutcome::Parsed(_, _, _) => dbf_header_at(dbf@, 0) is None ==> (r matches Err(e)
                            && e is CorruptedFile),
                        HeaderOutcome::Truncated => r matches Err(e) && e is CorruptedFile,
                        HeaderOutcome::InvalidFileCode(c) => r == Err::<Self, ShapefileError>(
                            ShapefileError::InvalidFileCode { actual: c as i32 },
                        ),
                        HeaderOutcome::InvalidVersion(v) => r == Err::<Self, ShapefileError>(
                            ShapefileError::InvalidVersion { actual: v as i32 },
                        ),
                        HeaderOutcome::Unsupported(c) => r == Err::<Self, ShapefileError>(
                            ShapefileError::UnsupportedShapeType(c as i32),
                        ),
                    }
                }
            },
    {
        let label = match cpg {
            Some(c) => {
                let mut parser = CpgParser::new(c);
                parser.parse()?
            },
            None => resolved_label(None),
        };
        let crs = match prj {
            Some(p) => {
                let mut parser = PrjParser::new(p);
                Some(parser.parse()?)
            },
            None => None,
        };
        let mut shp_parser = ShpParser::new(shp, shx)?;
        let shp_header = shp_parser.parse_header()?;
        let mut dbf_parser = DbfParser::with_label(dbf, label);
        let dbf_header = dbf_parser.parse_header()?;
        let num_records = dbf_header.num_records as usize;
        let dbf_fields = dbf_header.fields;
        Ok(ShapefileReader {
            shape_type: shp_header.shape_type,
            bbox: shp_header.bbox,
            crs,
            num_records,
            shp_parser,
            dbf_parser,
            dbf_fields,
            iter_index: 0,
        })
    }
}

/// Reading from a record's start: a record that parses is followed by the
/// next one in the chain.
proof fn lemma_shp_offset_step(s: Seq<u8>, k: nat)
    ensures
        record_at(s, shp_offset(s, 100, k)) matches RecordOutcome::Parsed(_, e) ==> shp_offset(
            s,
            100,
            k + 1,
        ) == e,
{
}

/// Some field definition is named `field`.
pub open spec fn has_field(fields: Seq<FieldDef>, field: Seq<char>) -> bool {
    exists|k: int| 0 <= k < fields.len() && (#[trigger] fields[k]).name@ == field
}

/// Field `k` is the first field named `field`.
pub open spec fn first_named(fields: Seq<FieldDef>, field: Seq<char>, k: int) -> bool {
    &&& 0 <= k < fields.len()
    &&& fields[k].name@ == field
    &&& forall|j: int| 0 <= j < k ==> (#[trigger] fields[j]).name@ != field
}

/// The index of the first field named `field`, if any.
fn find_field(fields: &Vec<FieldDef>, field: &str) -> (r: Option<usize>)
    ensures
        r is Some <==> has_field(fields@, field@),
        r matches Some(k) ==> first_named(fields@, field@, k as int),
{
    let n = fields.len();
    let mut i: usize = 0;
    while i < n
        invariant
            n == fields@.len(),
            i <= n,
            forall|k: int| 0 <= k < i ==> (#[trigger] fields@[k]).name@ != field@,
        decreases n - i,
    {
        if str_eq(fields[i].name.as_str(), field) {
            return Some(i);
        }
        i = i + 1;
    }
    None
}

impl ShapefileReader {
    /// Returns the shape type declared in the .shp file header.
    pub fn shape_type(&self) -> (r: ShapeType)
        ensures
            r == self.spec_shape_type(),
    {
        self.shape_type
    }

    /// Returns the coordinate reference system parsed from .prj, if available.
    pub fn crs(&self) -> (r: Option<&Crs>)
        ensures
            r is Some <==> self.spec_crs() is Some,
            r matches Some(c) ==> self.spec_crs() == Some(*c),
    {
        match &self.crs {
            Some(c) => Some(c),
            None => None,
        }
    }

    /// Returns the file-level bounding box from the .shp header.
    pub fn bbox(&self) -> (r: &BoundingBox)
        ensures
            *r == self.spec_bbox(),
    {
        &self.bbox
    }

    /// Returns the total number of records in the shapefile.
    pub fn len(&self) -> (r: usize)
        ensures
            r == self.spec_len(),
    {
        self.num_records
    }

    /// Returns `true` if the shapefile contains no records.
    pub fn is_empty(&self) -> (r: bool)
        ensures
            r == (self.spec_len() == 0),
    {
        self.num_records == 0
    }

    /// The field definitions of the attribute table.
    pub fn fields(&self) -> (r: &Vec<FieldDef>)
        ensures
            r@ == self.spec_fields(),
    {
        &self.dbf_fields
    }

    /// Reads all records (or up to `limit`) from the start, pairing the
    /// main file's records with the attribute table's live records in order
    /// and numbering them from 1.
    pub fn records(&mut self, limit: Option<usize>) -> (r: Result<Vec<ShapeRecord>, ShapefileError>)
        requires
            old(self).wf(),
            old(self).readable(crate::models::record::limited(limit, old(self).spec_len())),
        ensures
            final(self).wf(),
            final(self).shp_bytes() == old(self).shp_bytes(),
            final(self).shx_entries() == old(self).shx_entries(),
            final(self).dbf_header() == old(self).dbf_header(),
            final(self).dbf_label() == old(self).dbf_label(),
            final(self).spec_len() == old(self).spec_len(),
            final(self).spec_fields() == old(self).spec_fields(),
            final(self).dbf_bytes() == old(self).dbf_bytes(),
            r matches Ok(v) ==> {
                &&& v@.len() == crate::models::record::limited(limit, old(self).spec_len())
                &&& forall|k: int| 0 <= k < v@.len() ==> old(self).is_record(#[trigger] v@[k], k as nat)
            },
            r matches Err(e) ==> exists|k: nat|
                k < crate::models::record::limited(limit, old(self).spec_len()) && #[trigger] old(
                    self,
                ).record_fails(k, e),
    {
        let ghost s = self.shp_parser.bytes();
        let ghost sd = self.dbf_parser.bytes();
        let ghost h = self.dbf_parser.header_view()->Some_0;
        let ghost p0: int = (33 + 32 * h.fields.len()) as int;
        self.shp_parser.seek_to_records()?;
        self.dbf_parser.seek_to_records()?;
        let max = match limit {
            Some(n) => if n < self.num_records {
                n
            } else {
                self.num_records
            },
            None => self.num_records,
        };
        let mut results: Vec<ShapeRecord> = Vec::new();
        let mut i: usize = 0;
        while i < max
            invariant
                i <= max,
                max <= self.num_records,
                self.wf(),
                self.shp_parser.bytes() == s,
                s == old(self).shp_bytes(),
                self.shx_entries() == old(self).shx_entries(),
                self.dbf_header() == old(self).dbf_header(),
                self.dbf_label() == old(self).dbf_label(),
                self.num_records == old(self).num_records,
                self.dbf_fields@ == old(self).dbf_fields@,
                self.shp_parser.pos() == shp_offset(s, 100, i as nat),
                records_ok_n(s, self.shp_parser.pos(), max - i),
                max > 0 ==> (self.dbf_header() matches Some(h) && fields_fit(h)),
                results@.len() == i,
                max == crate::models::record::limited(limit, old(self).spec_len()),
                self.dbf_parser.bytes() == sd,
                sd == old(self).dbf_bytes(),
                self.dbf_parser.header_view() == Some(h),
                h == old(self).dbf_header()->Some_0,
                p0 == 33 + 32 * h.fields.len(),
                dbf_walk(sd, p0, 0, h, i as nat) == dbf_step(
                    sd,
                    self.dbf_parser.pos(),
                    self.dbf_parser.records_read(),
                    h,
                ),
                forall|k: int| 0 <= k < i ==> old(self).is_record(#[trigger] results@[k], k as nat),
            decreases max - i,
        {
            let record_number = number_here(&self.shp_parser);
            let ghost pos = self.shp_parser.pos();
            let geom = match self.shp_parser.parse_record() {
                Ok(g) => g,
                Err(e) => {
                    assert(old(self).record_fails(i as nat, e));
                    return Err(e);
                },
            };
            proof {
                lemma_record_end(s, pos);
                lemma_shp_offset_step(s, i as nat);
            }
            proof {
                let h = self.dbf_parser.header_view()->Some_0;
                DbfParser::lemma_step_safe(
                    self.dbf_parser.bytes(),
                    self.dbf_parser.pos(),
                    self.dbf_parser.records_read(),
                    h,
                );
            }
            let ghost dpos = self.dbf_parser.pos();
            let ghost dread = self.dbf_parser.records_read();
            let attrs_vec = match self.dbf_parser.next_record() {
                Some(Ok(a)) => a,
                Some(Err(e)) => {
                    assert(old(self).record_fails(i as nat, e));
                    return Err(e);
                },
                None => {
                    let mut reason = "expected DBF record at index ".to_string();
                    reason.append(&i.to_string());
                    reason.append(", got EOF");
                    let e = ShapefileError::CorruptedFile { reason };
                    assert(old(self).record_fails(i as nat, e));
                    return Err(e);
                },
            };
            let attributes = Attributes::from_entries(attrs_vec);
            proof {
                let q = dbf_step(sd, dpos, dread, h)->Record_0;
                assert(entries_fit(old(self).dbf_label(), h.fields, record_data(sd, q, h), attrs_vec@));
                assert(entries_map(attrs_vec@) == attributes@);
                lemma_dbf_walk_next(sd, p0, 0, h, i as nat);
            }
            results.push(ShapeRecord { record_number, geometry: geom, attributes });
            i = i + 1;
        }
        Ok(results)
    }
}

impl ShapefileReader {
    /// The main file's read position.
    pub closed spec fn shp_pos(&self) -> int {
        self.shp_parser.pos()
    }

    /// Returns the record at the given zero-based index, or `None` when the
    /// index is past the record count (or past the index file's entries, or
    /// the attribute table's live records).
    pub fn get(&mut self, index: usize) -> (r: Result<Option<ShapeRecord>, ShapefileError>)
        requires
            old(self).wf(),
            index < old(self).spec_len() ==> {
                &&& match old(self).shx_entries() {
                    Some(_) => shx_record_ok(old(self).shp_bytes(), old(self).shx_entries(), index as int),
                    None => records_ok_n(old(self).shp_bytes(), 100, index + 1),
                }
                &&& old(self).dbf_header() matches Some(h) && fields_fit(h)
            },
        ensures
            final(self).wf(),
            final(self).shp_bytes() == old(self).shp_bytes(),
            final(self).shx_entries() == old(self).shx_entries(),
            final(self).dbf_header() == old(self).dbf_header(),
            final(self).dbf_label() == old(self).dbf_label(),
            final(self).spec_len() == old(self).spec_len(),
            index >= old(self).spec_len() ==> (r matches Ok(None)),
            r matches Ok(Some(rec)) ==> old(self).got_record(rec, index as nat),
            (index < old(self).spec_len() && r matches Ok(None)) ==> match old(self).shx_entries() {
                None => old(self).table_step(index as nat) is End,
                Some(es) => index >= es.len() || old(self).table_step(index as nat) is End,
            },
            r matches Err(e) ==> match old(self).shx_entries() {
                None => exists|k: nat| k <= index && #[trigger] old(self).record_fails(k, e),
                Some(es) => shp_read_fails(record_at(old(self).shp_bytes(), es[index as int].0 as int), e)
                    || exists|k: nat| k <= index && #[trigger] old(self).table_fails(k, e),
            },
    {
        if index >= self.num_records {
            return Ok(None);
        }
        let ghost s = self.shp_parser.bytes();
        let (geom, record_number) = if self.shp_parser.has_shx() {
            let number = match self.shp_parser.entry_offset(index) {
                Some(off) => match self.shp_parser.stored_number(off) {
                    Some(n) => n,
                    None => 0,
                },
                None => 0,
            };
            match self.shp_parser.read_at(index) {
                Ok(Some(g)) => {
                    proof {
                        let off = self.shp_parser.shx_entries()->Some_0[index as int].0 as int;
                        lemma_record_end(s, off);
                    }
                    (g, number)
                },
                Ok(None) => {
                    return Ok(None);
                },
                Err(e) => {
                    return Err(e);
                },
            }
        } else {
            match scan_to(&mut self.shp_parser, index) {
                Ok(gn) => gn,
                Err(e) => {
                    proof {
                        let j = choose|j: nat| j <= index && #[trigger] shp_read_fails(
                            record_at(s, shp_offset(s, 100, j)),
                            e,
                        );
                        assert(old(self).record_fails(j, e));
                    }
                    return Err(e);
                },
            }
        };
        let ghost sd = self.dbf_parser.bytes();
        let ghost h = self.dbf_parser.header_view()->Some_0;
        let ghost p0: int = (33 + 32 * h.fields.len()) as int;
        self.dbf_parser.seek_to_records()?;
        let mut count: usize = 0;
        loop
            invariant
                old(self).shx_entries() is None ==> Some(geom@) == shp_geometry(s, index as nat)
                    && record_number == stored_record_number(s, shp_offset(s, 100, index as nat)),
                old(self).shx_entries() matches Some(es) ==> (record_at(s, es[index as int].0 as int) matches RecordOutcome::Parsed(
                    g,
                    _,
                ) && geom@ == g && record_number == stored_record_number(s, es[index as int].0 as int)),
                old(self).shx_entries() is None ==> forall|k: nat| k <= index ==> (record_at(s, shp_offset(s, 100, k)) is Parsed),
                self.dbf_parser.bytes() == sd,
                sd == old(self).dbf_bytes(),
                h == old(self).dbf_header()->Some_0,
                p0 == 33 + 32 * h.fields.len(),
                dbf_walk(sd, p0, 0, h, count as nat) == dbf_step(
                    sd,
                    self.dbf_parser.pos(),
                    self.dbf_parser.records_read(),
                    h,
                ),
                s == old(self).shp_bytes(),
                index < old(self).spec_len(),
                count <= index,
                self.wf(),
                self.dbf_parser.header_view() == Some(h),
                fields_fit(h),
                self.dbf_parser.records_read() <= h.num_records,
                self.shp_parser.bytes() == s,
                self.shp_parser.shx_entries() == old(self).shx_entries(),
                self.dbf_header() == old(self).dbf_header(),
                self.dbf_label() == old(self).dbf_label(),
                self.num_records == old(self).num_records,
            decreases h.num_records - self.dbf_parser.records_read(),
        {
            proof {
                DbfParser::lemma_step_safe(
                    self.dbf_parser.bytes(),
                    self.dbf_parser.pos(),
                    self.dbf_parser.records_read(),
                    h,
                );
                lemma_dbf_step_bounds(
                    self.dbf_parser.bytes(),
                    self.dbf_parser.pos(),
                    self.dbf_parser.records_read(),
                    h,
                );
            }
            let ghost dpos = self.dbf_parser.pos();
            let ghost dread = self.dbf_parser.records_read();
            match self.dbf_parser.next_record() {
                None => {
                    proof {
                        lemma_dbf_walk_stays(sd, p0, 0, h, count as nat, index as nat);
                    }
                    return Ok(None);
                },
                Some(Err(e)) => {
                    proof {
                        assert(old(self).table_fails(count as nat, e));
                        if old(self).shx_entries() is None {
                            assert(old(self).record_fails(count as nat, e));
                        }
                    }
                    return Err(e);
                },
                Some(Ok(a)) => {
                    if count == index {
                        let attributes = Attributes::from_entries(a);
                        proof {
                            let q = dbf_step(sd, dpos, dread, h)->Record_0;
                            assert(entries_fit(old(self).dbf_label(), h.fields, record_data(sd, q, h), a@));
                            assert(entries_map(a@) == attributes@);
                        }
                        return Ok(
                            Some(
                                ShapeRecord { record_number, geometry: geom, attributes },
                            ),
                        );
                    }
                    proof {
                        lemma_dbf_walk_next(sd, p0, 0, h, count as nat);
                    }
                    count = count + 1;
                },
            }
        }
    }

    /// Starts iterating over all records from the first one.
    pub fn iter_records(&mut self)
        requires
            old(self).wf(),
        ensures
            final(self).wf(),
            final(self).shp_bytes() == old(self).shp_bytes(),
            final(self).shx_entries() == old(self).shx_entries(),
            final(self).dbf_header() == old(self).dbf_header(),
            final(self).dbf_label() == old(self).dbf_label(),
            final(self).spec_len() == old(self).spec_len(),
            final(self).dbf_bytes() == old(self).dbf_bytes(),
            final(self).shp_pos() == 100,
            final(self).spec_iter_index() == 0,
            final(self).iter_synced(),
    {
        let _ = self.shp_parser.seek_to_records();
        let _ = self.dbf_parser.seek_to_records();
        self.iter_index = 0;
    }

    /// How many records iteration has yielded.
    pub closed spec fn spec_iter_index(&self) -> int {
        self.iter_index as int
    }

    /// The attribute table's read position.
    pub closed spec fn dbf_pos(&self) -> int {
        self.dbf_parser.pos()
    }

    /// How many of the attribute table's records have been read.
    pub closed spec fn dbf_read(&self) -> int {
        self.dbf_parser.records_read()
    }

    /// Both files are read up to the record that iteration yields next: the
    /// main file stands at its start, and the table's next step is the one
    /// that yields the live record of the same number.
    pub open spec fn iter_synced(&self) -> bool {
        let h = self.dbf_header()->Some_0;
        &&& self.shp_pos() == shp_offset(self.shp_bytes(), 100, self.spec_iter_index() as nat)
        &&& self.table_step(self.spec_iter_index() as nat) == dbf_step(
            self.dbf_bytes(),
            self.dbf_pos(),
            self.dbf_read(),
            h,
        )
    }

    /// The next record of an iteration: `None` after the record count, or
    /// when the attribute table has no more live records; the main file's
    /// next record with the table's next live record otherwise, numbered on
    /// from the last one.
    pub fn next_iter_record(&mut self) -> (r: Option<Result<ShapeRecord, ShapefileError>>)
        requires
            old(self).wf(),
            record_ok(old(self).shp_bytes(), old(self).shp_pos()),
            old(self).dbf_header() matches Some(h) && fields_fit(h),
            old(self).spec_iter_index() <= old(self).spec_len(),
        ensures
            final(self).wf(),
            final(self).shp_bytes() == old(self).shp_bytes(),
            final(self).shx_entries() == old(self).shx_entries(),
            final(self).dbf_header() == old(self).dbf_header(),
            final(self).dbf_label() == old(self).dbf_label(),
            final(self).spec_len() == old(self).spec_len(),
            final(self).spec_iter_index() <= final(self).spec_len(),
            old(self).spec_iter_index() >= old(self).spec_len() ==> r is None,
            r matches Some(Ok(rec)) ==> {
                &&& rec.record_number == stored_record_number(old(self).shp_bytes(), old(self).shp_pos())
                &&& final(self).spec_iter_index() == old(self).spec_iter_index() + 1
                &&& (match record_at(old(self).shp_bytes(), old(self).shp_pos()) {
                    RecordOutcome::Parsed(g, _) => rec.geometry@ == g,
                    _ => false,
                })
            },
            final(self).dbf_bytes() == old(self).dbf_bytes(),
            old(self).iter_synced() ==> {
                &&& r matches Some(Ok(rec)) ==> old(self).is_record(rec, old(self).spec_iter_index() as nat)
                    && final(self).iter_synced()
                &&& r matches Some(Err(e)) ==> old(self).record_fails(old(self).spec_iter_index() as nat, e)
                &&& (r is None && old(self).spec_iter_index() < old(self).spec_len()) ==> old(self).table_step(
                    old(self).spec_iter_index() as nat,
                ) is End
            },
    {
        if self.iter_index as usize >= self.num_records {
            return None;
        }
        let ghost s = self.shp_parser.bytes();
        let ghost k = self.iter_index as nat;
        let record_number = number_here(&self.shp_parser);
        let ghost here = self.shp_parser.pos();
        let geom = match self.shp_parser.parse_record() {
            Ok(g) => g,
            Err(e) => {
                return Some(Err(e));
            },
        };
        proof {
            lemma_record_end(s, here);
        }
        let ghost sd = self.dbf_parser.bytes();
        let ghost h = self.dbf_parser.header_view()->Some_0;
        let ghost dpos = self.dbf_parser.pos();
        let ghost dread = self.dbf_parser.records_read();
        proof {
            DbfParser::lemma_step_safe(sd, dpos, dread, h);
            lemma_shp_offset_step(s, k);
        }
        let attrs_vec = match self.dbf_parser.next_record() {
            Some(Ok(a)) => a,
            Some(Err(e)) => {
                return Some(Err(e));
            },
            None => {
                return None;
            },
        };
        self.iter_index = self.iter_index + 1;
        let attributes = Attributes::from_entries(attrs_vec);
        proof {
            if old(self).iter_synced() {
                let q = dbf_step(sd, dpos, dread, h)->Record_0;
                assert(entries_fit(old(self).dbf_label(), h.fields, record_data(sd, q, h), attrs_vec@));
                assert(entries_map(attrs_vec@) == attributes@);
                lemma_dbf_walk_next(sd, (33 + 32 * h.fields.len()) as int, 0, h, k);
            }
        }
        Some(Ok(ShapeRecord { record_number, geometry: geom, attributes }))
    }

    /// Fails with `FieldNotFound` unless the attribute table has `field`.
    pub fn validate_field_exists(&self, field: &str) -> (r: Result<(), ShapefileError>)
        ensures
            r is Ok <==> has_field(self.spec_fields(), field@),
            r matches Err(e) ==> e is FieldNotFound,
    {
        match find_field(&self.dbf_fields, field) {
            Some(_) => Ok(()),
            None => Err(ShapefileError::FieldNotFound(field.to_string())),
        }
    }

    /// Returns the records whose attribute `field` is a text starting with
    /// `prefix`; fails with `FieldNotFound` when the table has no such field.
    pub fn filter_by_attribute_starts_with(&mut self, field: &str, prefix: &str) -> (r: Result<
        Vec<ShapeRecord>,
        ShapefileError,
    >)
        requires
            old(self).wf(),
            old(self).readable(old(self).spec_len()),
        ensures
            final(self).wf(),
            !has_field(old(self).spec_fields(), field@) ==> (r matches Err(e) && e is FieldNotFound),
            r matches Ok(v) ==> exists|all: Seq<ShapeRecord>|
                #[trigger] old(self).all_records(all) && v@ == keep(
                    all,
                    |rec: ShapeRecord| field_starts_with(rec.attributes@, field@, prefix@),
                ),
            r matches Err(e) ==> !has_field(old(self).spec_fields(), field@) || exists|k: nat|
                k < old(self).spec_len() && #[trigger] old(self).record_fails(k, e),
    {
        self.validate_field_exists(field)?;
        let all = self.records(None)?;
        let ghost allv = all@;
        let out = keep_starting_with(all, field, prefix);
        proof {
            assert(old(self).all_records(allv));
        }
        Ok(out)
    }

    /// The numbers that `describe` summarises: fails with `FieldNotFound`
    /// when the table has no such field and with `DescribeOnNonNumericField`
    /// when the field is neither Numeric nor Float; otherwise the numeric
    /// values of `field` over all records, in order.
    pub fn numeric_values(&mut self, field: &str) -> (r: Result<Vec<Number>, ShapefileError>)
        requires
            old(self).wf(),
            old(self).readable(old(self).spec_len()),
        ensures
            final(self).wf(),
            !has_field(old(self).spec_fields(), field@) ==> (r matches Err(ShapefileError::FieldNotFound(n))
                && n@ == field@),
            forall|k: int|
                first_named(old(self).spec_fields(), field@, k) && !(
                #[trigger] old(self).spec_fields()[k]).spec_is_numeric() ==> (r matches Err(
                    ShapefileError::DescribeOnNonNumericField { field: f, field_type: t },
                ) && f@ == field@ && t@ == old(self).spec_fields()[k].field_type.spec_name()),
            r matches Ok(v) ==> exists|all: Seq<ShapeRecord>|
                #[trigger] old(self).all_records(all) && v@ == record_numbers(all, field@),
            r matches Err(e) ==> !has_field(old(self).spec_fields(), field@) || e is DescribeOnNonNumericField
                || exists|k: nat| k < old(self).spec_len() && #[trigger] old(self).record_fails(k, e),
    {
        let k = match find_field(&self.dbf_fields, field) {
            Some(k) => k,
            None => {
                return Err(ShapefileError::FieldNotFound(field.to_string()));
            },
        };
        if !self.dbf_fields[k].is_numeric() {
            return Err(
                ShapefileError::DescribeOnNonNumericField {
                    field: field.to_string(),
                    field_type: self.dbf_fields[k].field_type.name().to_string(),
                },
            );
        }
        let all = self.records(None)?;
        let (_found, values) = scan_numbers(&all, field);
        proof {
            assert(old(self).all_records(all@));
        }
        Ok(values)
    }
}

/// Reads the main file from its first record up to record `index`.
/// The record number stored in the header of the record at the main file's
/// read position, when its four bytes are present.
fn number_here(shp: &ShpParser) -> (r: u32)
    ensures
        0 <= shp.pos(),
        shp.pos() + 4 <= shp.bytes().len() ==> r == stored_record_number(shp.bytes(), shp.pos()),
{
    match shp.stored_number(shp.position()) {
        Some(n) => n,
        None => 0,
    }
}

fn scan_to(shp: &mut ShpParser, index: usize) -> (r: Result<(Geometry, u32), ShapefileError>)
    requires
        index < usize::MAX,
        records_ok_n(old(shp).bytes(), 100, index + 1),
    ensures
        final(shp).bytes() == old(shp).bytes(),
        final(shp).shx_entries() == old(shp).shx_entries(),
        r matches Ok((g, n)) ==> Some(g@) == shp_geometry(old(shp).bytes(), index as nat)
            && n == stored_record_number(old(shp).bytes(), shp_offset(old(shp).bytes(), 100, index as nat))
            && forall|k: nat|
            k <= index ==> (record_at(old(shp).bytes(), shp_offset(old(shp).bytes(), 100, k)) is Parsed),
        r matches Err(e) ==> exists|k: nat|
            k <= index && #[trigger] shp_read_fails(
                record_at(old(shp).bytes(), shp_offset(old(shp).bytes(), 100, k)),
                e,
            ),
{
    let ghost s = shp.bytes();
    shp.seek_to_records()?;
    let mut geom = Geometry::Null;
    let mut number: u32 = 0;
    let mut i: usize = 0;
    while i <= index
        invariant
            index < usize::MAX,
            i <= index + 1,
            shp.bytes() == s,
            s == old(shp).bytes(),
            shp.shx_entries() == old(shp).shx_entries(),
            shp.pos() == shp_offset(s, 100, i as nat),
            records_ok_n(s, shp.pos(), index + 1 - i),
            i > 0 ==> Some(geom@) == shp_geometry(s, (i - 1) as nat),
            i > 0 ==> number == stored_record_number(s, shp_offset(s, 100, (i - 1) as nat)),
            forall|k: nat| k < i ==> (record_at(s, shp_offset(s, 100, k)) is Parsed),
        decreases index + 1 - i,
    {
        let n = number_here(shp);
        let ghost here = shp.pos();
        geom = match shp.parse_record() {
            Ok(g) => g,
            Err(e) => {
                assert(shp_read_fails(record_at(s, shp_offset(s, 100, i as nat)), e));
                return Err(e);
            },
        };
        proof {
            lemma_record_end(s, here);
            lemma_shp_offset_step(s, i as nat);
        }
        number = n;
        i = i + 1;
    }
    Ok((geom, number))
}

/// However a record is read (by `records` with or without a limit, by
/// `get` without an index file, or by iteration from `iter_records`), the
/// record read as number `k` is the same: same record number, same geometry,
/// and the attributes of the attribute table's `k`-th live record.
pub proof fn lemma_records_agree(rd: ShapefileReader, a: ShapeRecord, b: ShapeRecord, k: nat)
    requires
        rd.is_record(a, k),
        rd.is_record(b, k),
    ensures
        a.record_number == b.record_number,
        a.geometry@ == b.geometry@,
        crate::gml_model::attrs_v(a.attributes@) == crate::gml_model::attrs_v(b.attributes@),
{
    let h = rd.dbf_header()->Some_0;
    let q = rd.table_step(k)->Record_0;
    let data = record_data(rd.dbf_bytes(), q, h);
    let ea = choose|e: Seq<(String, AttributeValue)>|
        entries_fit(rd.dbf_label(), h.fields, data, e) && #[trigger] entries_map(e) == a.attributes@;
    let eb = choose|e: Seq<(String, AttributeValue)>|
        entries_fit(rd.dbf_label(), h.fields, data, e) && #[trigger] entries_map(e) == b.attributes@;
    lemma_entries_fit_unique(rd.dbf_label(), h.fields, data, ea, eb);
}

/// Reading by index gives record `index` of `records(None)` wherever the
/// index file's entry points where sequential reading finds that record:
/// same number, geometry and attribute values.
pub proof fn lemma_get_is_record(rd: ShapefileReader, rec: ShapeRecord, all: Seq<ShapeRecord>, index: nat)
    requires
        rd.all_records(all),
        index < all.len(),
        rd.got_record(rec, index),
        rd.index_agrees(index),
    ensures
        rec.record_number == all[index as int].record_number,
        rec.geometry@ == all[index as int].geometry@,
        crate::gml_model::attrs_v(rec.attributes@) == crate::gml_model::attrs_v(all[index as int].attributes@),
{
    assert(rd.is_record(all[index as int], index));
    assert(rd.is_record(rec, index));
    lemma_records_agree(rd, rec, all[index as int], index);
}

/// Iterating over a reader from its first record yields what `records(None)`
/// returns, and `records(Some(n))` its first records: whatever list holds
/// record `k` at place `k` for every `k` (as `next_iter_record` and
/// `records` produce them) agrees with the start of the list of all records
/// in number, geometry and attribute values.
pub proof fn lemma_iteration_is_records(rd: ShapefileReader, its: Seq<ShapeRecord>, all: Seq<ShapeRecord>)
    requires
        rd.all_records(all),
        its.len() <= all.len(),
        forall|k: int| 0 <= k < its.len() ==> rd.is_record(#[trigger] its[k], k as nat),
    ensures
        forall|k: int|
            0 <= k < its.len() ==> (#[trigger] its[k]).record_number == all[k].record_number
                && its[k].geometry@ == all[k].geometry@ && crate::gml_model::attrs_v(its[k].attributes@)
                == crate::gml_model::attrs_v(all[k].attributes@),
{
    assert forall|k: int| 0 <= k < its.len() implies (#[trigger] its[k]).record_number
        == all[k].record_number && its[k].geometry@ == all[k].geometry@ && crate::gml_model::attrs_v(
        its[k].attributes@,
    ) == crate::gml_model::attrs_v(all[k].attributes@) by {
        lemma_records_agree(rd, its[k], all[k], k as nat);
    }
}

/// Everything `keep` keeps satisfies the predicate.
pub proof fn lemma_keep_all<T>(s: Seq<T>, p: spec_fn(T) -> bool)
    ensures
        forall|k: int| 0 <= k < keep(s, p).len() ==> p(#[trigger] keep(s, p)[k]),
    decreases s.len(),
{
    if s.len() > 0 {
        lemma_keep_all(s.drop_last(), p);
        let r = keep(s.drop_last(), p);
        assert forall|k: int| 0 <= k < keep(s, p).len() implies p(#[trigger] keep(s, p)[k]) by {
            if k < r.len() {
                assert(keep(s, p)[k] == r[k]);
            }
        }
    }
}

} // verus!
