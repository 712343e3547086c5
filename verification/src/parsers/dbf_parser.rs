//! The .dbf attribute table (dBASE III format).
use crate::binary_reader::{i16_as_u16, i32_as_u32, u16_le_at, u32_le_at, BinaryReader};
use crate::error::ShapefileError;
use crate::models::attribute::{entries_map, AttrView, AttributeValue, FieldDef, FieldDefView, FieldType};
use crate::number::{float_literal, is_float_literal, Number, NumberView};
use crate::text::{
    chars_of, string_from_chars, trim_chars, trim_end_chars, trim_end_seq, trim_seq,
    utf8_to_string, utf8_to_string_lossy, spec_utf8_lossy, all_chars_are,
};
use vstd::prelude::*;
use vstd::utf8::{decode_utf8, valid_utf8};

verus! {

// ---------------------------------------------------------------------------
// Character encodings (encoding_rs)
// ---------------------------------------------------------------------------

#[verifier::external_type_specification]
#[verifier::external_body]
pub struct ExEncoding(encoding_rs::Encoding);

/// Whether `encoding_rs::Encoding::for_label` knows the label.
pub uninterp spec fn spec_label_is_known(label: Seq<u8>) -> bool;

/// `encoding_rs::Encoding::for_label`: the encoding that a WHATWG label
/// names. The contract names whether the label is known; which encoding it
/// maps to is not stated.
#[verifier::external_body]
pub(crate) fn encoding_for_label(label: &[u8]) -> (r: Option<&'static encoding_rs::Encoding>)
    ensures
        r is Some <==> spec_label_is_known(label@),
{
    encoding_rs::Encoding::for_label(label)
}

/// `encoding_rs::SHIFT_JIS.name()`: the bytes of `Shift_JIS`, a label that
/// `for_label` knows.
#[verifier::external_body]
pub(crate) fn shift_jis_name() -> (r: Vec<u8>)
    ensures
        r@ == shift_jis_label(),
        spec_label_is_known(r@),
{
    encoding_rs::SHIFT_JIS.name().as_bytes().to_vec()
}

/// The bytes of the label `Shift_JIS`.
pub open spec fn shift_jis_label() -> Seq<u8> {
    seq![0x53u8, 0x68, 0x69, 0x66, 0x74, 0x5f, 0x4a, 0x49, 0x53]
}

/// The label text is decoded with when `label` is asked for: the label
/// itself when encoding_rs knows it, `Shift_JIS` otherwise and when none is
/// given.
pub open spec fn resolve_label(label: Option<Seq<u8>>) -> Seq<u8> {
    match label {
        Some(l) => if spec_label_is_known(l) {
            l
        } else {
            shift_jis_label()
        },
        None => shift_jis_label(),
    }
}

/// The optional bytes of an optional slice.
pub open spec fn opt_slice(label: Option<&[u8]>) -> Option<Seq<u8>> {
    match label {
        Some(l) => Some(l@),
        None => None,
    }
}

/// Resolves a label: itself when encoding_rs knows it, `Shift_JIS`
/// otherwise and when none is given.
pub fn resolved_label(label: Option<&[u8]>) -> (r: Vec<u8>)
    ensures
        r@ == resolve_label(opt_slice(label)),
        spec_label_is_known(r@),
{
    match label {
        Some(l) => match encoding_for_label(l) {
            Some(_) => vstd::slice::slice_to_vec(l),
            None => shift_jis_name(),
        },
        None => shift_jis_name(),
    }
}

/// What `encoding_rs::Encoding::decode` returns for `bytes` under the
/// encoding that `label` names: the decoded text, and whether malformed
/// sequences were replaced.
pub uninterp spec fn spec_decode(label: Seq<u8>, bytes: Seq<u8>) -> (Seq<char>, bool);

/// `encoding_rs::Encoding::decode` under the encoding that a known label
/// names (found with `Encoding::for_label`): decodes `bytes` after BOM
/// sniffing and reports whether malformed sequences were replaced. The
/// result depends on the label and the bytes alone, and is named.
#[verifier::external_body]
pub(crate) fn decode_bytes(label: &[u8], bytes: &[u8]) -> (r: (String, bool))
    requires
        spec_label_is_known(label@),
    ensures
        (r.0@, r.1) == spec_decode(label@, bytes@),
{
    let (decoded, _used, had_errors) = encoding_rs::Encoding::for_label(label).unwrap().decode(bytes);
    (decoded.into_owned(), had_errors)
}

// ---------------------------------------------------------------------------
// The header
// ---------------------------------------------------------------------------

/// The field type a descriptor's type byte names.
pub open spec fn field_type_of(b: u8) -> Option<FieldType> {
    if b == 0x43 {
        Some(FieldType::Character)
    } else if b == 0x4e {
        Some(FieldType::Numeric)
    } else if b == 0x46 {
        Some(FieldType::Float)
    } else if b == 0x44 {
        Some(FieldType::Date)
    } else if b == 0x4c {
        Some(FieldType::Logical)
    } else {
        None
    }
}

/// The bytes before the first zero byte.
pub open spec fn take_nonzero(b: Seq<u8>) -> Seq<u8>
    decreases b.len(),
{
    if b.len() == 0 || b[0] == 0 {
        Seq::empty()
    } else {
        seq![b[0]] + take_nonzero(b.drop_first())
    }
}

/// The name bytes of the field descriptor at `i` (its first 11 bytes, up to
/// the first zero byte).
pub open spec fn desc_name_bytes(s: Seq<u8>, i: int) -> Seq<u8> {
    take_nonzero(s.subrange(i, i + 11))
}

/// The 32-byte field descriptor at `i` is complete and valid.
pub open spec fn field_desc_ok(s: Seq<u8>, i: int) -> bool {
    i + 32 <= s.len() && valid_utf8(desc_name_bytes(s, i)) && field_type_of(s[i + 11]) is Some
}

/// The field the descriptor at `i` defines: name, type byte 11, length byte
/// 16, decimal count byte 17.
pub open spec fn field_desc(s: Seq<u8>, i: int) -> FieldDefView {
    FieldDefView {
        name: decode_utf8(desc_name_bytes(s, i)),
        field_type: field_type_of(s[i + 11]).unwrap(),
        length: s[i + 16],
        decimal_count: s[i + 17],
    }
}

/// The number of field descriptors a header of `header_size` bytes holds.
pub open spec fn num_fields_of(header_size: int) -> int {
    if header_size >= 33 {
        (header_size - 33) / 32
    } else {
        0
    }
}

/// A parsed header: record count, record size and the field definitions.
pub struct DbfHeaderView {
    pub num_records: u32,
    pub record_size: u16,
    pub fields: Seq<FieldDefView>,
}

/// The header at `p`: version (1 byte), date (3), record count (`i32`
/// little-endian), header size and record size (`i16` little-endian), 20
/// reserved bytes, then `(header_size - 33) / 32` field descriptors and the
/// terminator byte 0x0D. `None` when the header is truncated or invalid.
pub open spec fn dbf_header_at(s: Seq<u8>, p: int) -> Option<DbfHeaderView> {
    if p < 0 || p + 32 > s.len() {
        None
    } else {
        let nf = num_fields_of(u16_le_at(s, p + 8));
        let end = p + 32 + 32 * nf;
        if !(forall|k: int| 0 <= k < nf ==> #[trigger] field_desc_ok(s, p + 32 + 32 * k)) {
            None
        } else if end + 1 > s.len() || s[end] != 0x0d {
            None
        } else {
            Some(
                DbfHeaderView {
                    num_records: u32_le_at(s, p + 4) as u32,
                    record_size: u16_le_at(s, p + 10) as u16,
                    fields: Seq::new(nf as nat, |k: int| field_desc(s, p + 32 + 32 * k)),
                },
            )
        }
    }
}

/// A header whose descriptor `k` is missing or invalid has no parse.
proof fn lemma_bad_descriptor(s: Seq<u8>, p: int, k: int)
    requires
        p >= 0,
        0 <= k < num_fields_of(u16_le_at(s, p + 8)),
        !field_desc_ok(s, p + 32 + 32 * k),
    ensures
        dbf_header_at(s, p) is None,
{
}

/// The views of a list of field definitions.
pub open spec fn field_views(fields: Seq<FieldDef>) -> Seq<FieldDefView> {
    fields.map_values(|f: FieldDef| f@)
}

pub struct DbfHeader {
    pub num_records: u32,
    pub record_size: u16,
    pub fields: Vec<FieldDef>,
}

impl View for DbfHeader {
    type V = DbfHeaderView;

    open spec fn view(&self) -> DbfHeaderView {
        DbfHeaderView {
            num_records: self.num_records,
            record_size: self.record_size,
            fields: field_views(self.fields@),
        }
    }
}

fn clone_fields(v: &Vec<FieldDef>) -> (r: Vec<FieldDef>)
    ensures
        r@ == v@,
{
    let mut out: Vec<FieldDef> = Vec::new();
    let mut i: usize = 0;
    let n = v.len();
    while i < n
        invariant
            n == v@.len(),
            i <= n,
            out@ == v@.take(i as int),
        decreases n - i,
    {
        out.push(v[i].clone());
        i = i + 1;
        assert(out@ =~= v@.take(i as int));
    }
    assert(v@.take(n as int) =~= v@);
    out
}

/// The bytes of `b` before the first zero byte.
fn nonzero_prefix(b: &Vec<u8>) -> (r: Vec<u8>)
    ensures
        r@ == take_nonzero(b@),
{
    let n = b.len();
    let mut k: usize = 0;
    while k < n && b[k] != 0
        invariant
            n == b@.len(),
            k <= n,
            forall|j: int| 0 <= j < k ==> b@[j] != 0,
        decreases n - k,
    {
        k = k + 1;
    }
    let mut out: Vec<u8> = Vec::new();
    let mut j: usize = 0;
    while j < k
        invariant
            k <= n == b@.len(),
            j <= k,
            out@ == b@.take(j as int),
        decreases k - j,
    {
        out.push(b[j]);
        j = j + 1;
        assert(out@ =~= b@.take(j as int));
    }
    proof {
        lemma_take_nonzero(b@, k as int);
    }
    out
}

proof fn lemma_take_nonzero(b: Seq<u8>, k: int)
    requires
        0 <= k <= b.len(),
        forall|j: int| 0 <= j < k ==> b[j] != 0,
        k == b.len() || b[k] == 0,
    ensures
        take_nonzero(b) == b.take(k),
    decreases k,
{
    if k == 0 {
        assert(b.take(0) =~= Seq::<u8>::empty());
    } else {
        let t = b.drop_first();
        assert forall|j: int| 0 <= j < k - 1 implies t[j] != 0 by {
            assert(t[j] == b[j + 1]);
        }
        lemma_take_nonzero(t, k - 1);
        assert(seq![b[0]] + t.take(k - 1) =~= b.take(k));
    }
}

fn field_type_from_byte(b: u8) -> (r: Option<FieldType>)
    ensures
        r == field_type_of(b),
{
    if b == 0x43 {
        Some(FieldType::Character)
    } else if b == 0x4e {
        Some(FieldType::Numeric)
    } else if b == 0x46 {
        Some(FieldType::Float)
    } else if b == 0x44 {
        Some(FieldType::Date)
    } else if b == 0x4c {
        Some(FieldType::Logical)
    } else {
        None
    }
}

// ---------------------------------------------------------------------------
// Field values
// ---------------------------------------------------------------------------

/// The value of a Character field whose bytes decoded to `d`.
pub open spec fn character_value(d: Seq<char>) -> AttrView {
    let t = trim_end_seq(d);
    if t.len() == 0 {
        AttrView::Null
    } else {
        AttrView::Text(t)
    }
}

/// Every character of `t` is `*` (DBF's marker for an overflowed number).
pub open spec fn all_stars(t: Seq<char>) -> bool {
    forall|k: int| 0 <= k < t.len() ==> t[k] == '*'
}

/// The value a non-Character field's raw bytes hold; `None` when a numeric
/// field holds text that is not a number.
pub open spec fn field_value(ft: FieldType, raw: Seq<u8>) -> Option<AttrView> {
    match ft {
        FieldType::Numeric | FieldType::Float => {
            let t = trim_seq(spec_utf8_lossy(raw));
            if t.len() == 0 || all_stars(t) {
                Some(AttrView::Null)
            } else if is_float_literal(t) {
                Some(AttrView::Numeric(NumberView::Decimal(t)))
            } else {
                None
            }
        },
        FieldType::Date => {
            let t = trim_seq(spec_utf8_lossy(raw));
            if t.len() == 0 {
                Some(AttrView::Null)
            } else {
                Some(AttrView::Date(t))
            }
        },
        FieldType::Logical => {
            let b = raw[0];
            if b == 0x54 || b == 0x74 || b == 0x59 || b == 0x79 {
                Some(AttrView::Logical(true))
            } else if b == 0x46 || b == 0x66 || b == 0x4e || b == 0x6e {
                Some(AttrView::Logical(false))
            } else {
                Some(AttrView::Null)
            }
        },
        FieldType::Character => None,
    }
}

/// `v` is the value that field type `ft` gives for `raw`, text being
/// decoded with the encoding that `label` names: `field_value` for
/// non-Character fields, and the decoded text with its trailing whitespace
/// trimmed for Character fields.
pub open spec fn value_fits(label: Seq<u8>, ft: FieldType, raw: Seq<u8>, v: AttrView) -> bool {
    if ft is Character {
        v == character_value(spec_decode(label, raw).0)
    } else {
        field_value(ft, raw) == Some(v)
    }
}

/// The value of a Character field, given what the decoder returned.
pub fn character_field_value(name: String, decoded: String, had_errors: bool) -> (r: Result<
    (String, AttributeValue),
    ShapefileError,
>)
    ensures
        had_errors ==> (r matches Err(e) && e is EncodingError),
        !had_errors ==> (r matches Ok((n, v)) && n@ == name@ && v@ == character_value(decoded@)),
{
    if had_errors {
        return Err(
            ShapefileError::EncodingError {
                field: name,
                reason: "failed to decode character field bytes".to_string(),
            },
        );
    }
    let t = trim_end_chars(&chars_of(decoded.as_str()));
    if t.len() == 0 {
        Ok((name, AttributeValue::Null))
    } else {
        Ok((name, AttributeValue::Text(string_from_chars(t.as_slice()))))
    }
}

/// The value of a Numeric, Float or Date field from its raw bytes.
fn text_field_value(field: &FieldDef, raw: &[u8]) -> (r: Result<AttributeValue, ShapefileError>)
    requires
        field.field_type is Numeric || field.field_type is Float || field.field_type is Date,
    ensures
        match field_value(field.field_type, raw@) {
            Some(v) => r matches Ok(x) && x@ == v,
            None => r matches Err(e) && e is CorruptedFile,
        },
{
    let s = utf8_to_string_lossy(raw);
    let t = trim_chars(&chars_of(s.as_str()));
    match field.field_type {
        FieldType::Date => {
            if t.len() == 0 {
                Ok(AttributeValue::Null)
            } else {
                Ok(AttributeValue::Date(string_from_chars(t.as_slice())))
            }
        },
        _ => {
            if t.len() == 0 || all_chars_are(&t, '*') {
                Ok(AttributeValue::Null)
            } else if float_literal(&t) {
                Ok(AttributeValue::Numeric(Number::Decimal(string_from_chars(t.as_slice()))))
            } else {
                let mut reason = "failed to parse numeric field '".to_string();
                reason.append(field.name.as_str());
                reason.append("': '");
                reason.append(string_from_chars(t.as_slice()).as_str());
                reason.append("'");
                Err(ShapefileError::CorruptedFile { reason })
            }
        },
    }
}

// ---------------------------------------------------------------------------
// Records
// ---------------------------------------------------------------------------

/// The offset of field `k` inside a record's data: the lengths of the fields
/// before it, summed.
pub open spec fn field_offset(fields: Seq<FieldDefView>, k: int) -> int
    decreases k,
{
    if k <= 0 {
        0
    } else {
        field_offset(fields, k - 1) + fields[k - 1].length
    }
}

/// The record layout holds its fields: their lengths sum to at most the
/// record size less the deletion flag, and no Logical field is empty.
pub open spec fn fields_fit(h: DbfHeaderView) -> bool {
    &&& field_offset(h.fields, h.fields.len() as int) <= h.record_size - 1
    &&& forall|k: int|
        0 <= k < h.fields.len() ==> (#[trigger] h.fields[k]).field_type is Logical ==> h.fields[k].length
            >= 1
}

/// What one step of record iteration finds.
pub enum DbfStep {
    /// All records have been read; the position and the count of records read then.
    End(int, int),
    /// The data ends first; the count of records read by then.
    Failed(int),
    /// A live record starts at the offset; the count of records read after it.
    Record(int, int),
    /// Reading panics (a record size of zero).
    Panics,
}

/// Iteration from offset `p` with `read` records read: deleted records
/// (flag 0x2A) are skipped, the next live record is returned.
pub open spec fn dbf_step(s: Seq<u8>, p: int, read: int, h: DbfHeaderView) -> DbfStep
    decreases h.num_records - read,
{
    if read >= h.num_records {
        DbfStep::End(p, read)
    } else if p < 0 || p >= s.len() {
        DbfStep::Failed(read)
    } else if h.record_size == 0 {
        DbfStep::Panics
    } else if p + h.record_size > s.len() {
        DbfStep::Failed(read)
    } else if s[p] == 0x2a {
        dbf_step(s, p + h.record_size, read + 1, h)
    } else {
        DbfStep::Record(p, read + 1)
    }
}

/// A step that finds a record counts it, and stays within the record count.
pub proof fn lemma_dbf_step_bounds(s: Seq<u8>, p: int, read: int, h: DbfHeaderView)
    ensures
        dbf_step(s, p, read, h) matches DbfStep::Record(_, n) ==> read < n <= h.num_records,
        dbf_step(s, p, read, h) matches DbfStep::End(_, n) ==> read <= n || read >= h.num_records,
    decreases h.num_records - read,
{
    if read < h.num_records && 0 <= p < s.len() && h.record_size != 0 && p + h.record_size <= s.len()
        && s[p] == 0x2a {
        lemma_dbf_step_bounds(s, p + h.record_size, read + 1, h);
    }
}

/// The `k`-th step of iteration from offset `p` with `read` records read:
/// the first step when `k` is 0; otherwise, after a live record, the
/// `k - 1`-th step from just past it, and whatever ended the walk before.
pub open spec fn dbf_walk(s: Seq<u8>, p: int, read: int, h: DbfHeaderView, k: nat) -> DbfStep
    decreases k,
{
    if k == 0 {
        dbf_step(s, p, read, h)
    } else {
        match dbf_step(s, p, read, h) {
            DbfStep::Record(q, n) => dbf_walk(s, q + h.record_size, n, h, (k - 1) as nat),
            other => other,
        }
    }
}

/// One more step of a walk is the step just past its last live record.
pub proof fn lemma_dbf_walk_next(s: Seq<u8>, p: int, read: int, h: DbfHeaderView, k: nat)
    ensures
        dbf_walk(s, p, read, h, k + 1) == match dbf_walk(s, p, read, h, k) {
            DbfStep::Record(q, n) => dbf_step(s, q + h.record_size, n, h),
            other => other,
        },
    decreases k,
{
    reveal_with_fuel(dbf_walk, 2);
    if k > 0 {
        if let DbfStep::Record(q, n) = dbf_step(s, p, read, h) {
            lemma_dbf_walk_next(s, q + h.record_size, n, h, (k - 1) as nat);
        }
    }
}

/// A walk that has stopped at something other than a live record stays
/// there.
pub proof fn lemma_dbf_walk_stays(s: Seq<u8>, p: int, read: int, h: DbfHeaderView, j: nat, k: nat)
    requires
        j <= k,
        !(dbf_walk(s, p, read, h, j) is Record),
    ensures
        dbf_walk(s, p, read, h, k) == dbf_walk(s, p, read, h, j),
    decreases k - j,
{
    if j < k {
        lemma_dbf_walk_stays(s, p, read, h, j, (k - 1) as nat);
        lemma_dbf_walk_next(s, p, read, h, (k - 1) as nat);
    }
}

/// The data of the record starting at `q`: its bytes after the deletion flag.
pub open spec fn record_data(s: Seq<u8>, q: int, h: DbfHeaderView) -> Seq<u8> {
    s.subrange(q + 1, q + h.record_size)
}

/// The step from here neither panics nor meets a record whose fields do not
/// fit its size.
pub open spec fn step_safe(s: Seq<u8>, p: int, read: int, h: DbfHeaderView) -> bool {
    match dbf_step(s, p, read, h) {
        DbfStep::Panics => false,
        DbfStep::Record(_, _) => fields_fit(h),
        _ => true,
    }
}

/// The bytes of field `k` in a record's data (the record without its flag).
pub open spec fn data_raw(fields: Seq<FieldDefView>, data: Seq<u8>, k: int) -> Seq<u8> {
    data.subrange(field_offset(fields, k), field_offset(fields, k) + fields[k].length)
}

/// Field `f` with raw bytes `raw` fails with `e`: a decoding error for a
/// Character field whose bytes do not decode cleanly, a text that is no
/// number for a numeric one.
pub open spec fn field_fails(label: Seq<u8>, f: FieldDefView, raw: Seq<u8>, e: ShapefileError) -> bool {
    if f.field_type is Character {
        spec_decode(label, raw).1 && e is EncodingError
    } else {
        field_value(f.field_type, raw) is None && e is CorruptedFile
    }
}

/// Field `f` reads from `raw` without an error.
pub open spec fn field_parses(label: Seq<u8>, f: FieldDefView, raw: Seq<u8>) -> bool {
    if f.field_type is Character {
        !spec_decode(label, raw).1
    } else {
        field_value(f.field_type, raw) is Some
    }
}

/// `e` holds every field's name and value in order, read from a record's data.
pub open spec fn entries_fit(
    label: Seq<u8>,
    fields: Seq<FieldDefView>,
    data: Seq<u8>,
    e: Seq<(String, AttributeValue)>,
) -> bool {
    e.len() == fields.len() && forall|k: int|
        0 <= k < fields.len() ==> (#[trigger] e[k]).0@ == fields[k].name && value_fits(
            label,
            fields[k].field_type,
            data_raw(fields, data, k),
            e[k].1@,
        )
}

/// `m` is the attribute map of a record's data: the map that its field
/// entries, inserted in order, build.
pub open spec fn record_attrs(
    label: Seq<u8>,
    fields: Seq<FieldDefView>,
    data: Seq<u8>,
    m: Map<Seq<char>, AttributeValue>,
) -> bool {
    exists|e: Seq<(String, AttributeValue)>| entries_fit(label, fields, data, e) && #[trigger] entries_map(e) == m
}

/// Two entry lists that both fit a record's data build maps with the same
/// values: the fields fix every name and value.
pub proof fn lemma_entries_fit_unique(
    label: Seq<u8>,
    fields: Seq<FieldDefView>,
    data: Seq<u8>,
    e1: Seq<(String, AttributeValue)>,
    e2: Seq<(String, AttributeValue)>,
)
    requires
        entries_fit(label, fields, data, e1),
        entries_fit(label, fields, data, e2),
    ensures
        crate::gml_model::attrs_v(entries_map(e1)) == crate::gml_model::attrs_v(entries_map(e2)),
{
    lemma_entries_prefix_views(label, fields, data, e1, e2, e1.len() as int);
    assert(e1.take(e1.len() as int) =~= e1);
    assert(e2.take(e2.len() as int) =~= e2);
}

proof fn lemma_entries_prefix_views(
    label: Seq<u8>,
    fields: Seq<FieldDefView>,
    data: Seq<u8>,
    e1: Seq<(String, AttributeValue)>,
    e2: Seq<(String, AttributeValue)>,
    n: int,
)
    requires
        entries_fit(label, fields, data, e1),
        entries_fit(label, fields, data, e2),
        0 <= n <= e1.len(),
    ensures
        crate::gml_model::attrs_v(entries_map(e1.take(n))) == crate::gml_model::attrs_v(
            entries_map(e2.take(n)),
        ),
    decreases n,
{
    if n == 0 {
        assert(e1.take(0) =~= Seq::<(String, AttributeValue)>::empty());
        assert(e2.take(0) =~= Seq::<(String, AttributeValue)>::empty());
    } else {
        lemma_entries_prefix_views(label, fields, data, e1, e2, n - 1);
        assert(e1.take(n).drop_last() =~= e1.take(n - 1));
        assert(e2.take(n).drop_last() =~= e2.take(n - 1));
        let a = e1[n - 1];
        let b = e2[n - 1];
        assert(a.0@ == fields[n - 1].name && b.0@ == fields[n - 1].name);
        assert(a.1@ == b.1@);
        crate::gml_model::lemma_attrs_v_insert(entries_map(e1.take(n - 1)), a.0@, a.1);
        crate::gml_model::lemma_attrs_v_insert(entries_map(e2.take(n - 1)), b.0@, b.1);
    }
}

/// What reading the fields of a record's data gives: every field's name and
/// value in order, or the error of the first field that fails.
pub open spec fn record_outcome(
    label: Seq<u8>,
    fields: Seq<FieldDefView>,
    data: Seq<u8>,
    r: Result<Vec<(String, AttributeValue)>, ShapefileError>,
) -> bool {
    match r {
        Ok(v) => entries_fit(label, fields, data, v@),
        Err(e) => exists|k: int|
            0 <= k < fields.len() && (forall|j: int|
                0 <= j < k ==> field_parses(label, fields[j], #[trigger] data_raw(fields, data, j)))
                && field_fails(label, fields[k], data_raw(fields, data, k), e),
    }
}

proof fn lemma_field_offset_nonneg(fields: Seq<FieldDefView>, k: int)
    ensures
        field_offset(fields, k) >= 0,
    decreases k,
{
    if k > 0 {
        lemma_field_offset_nonneg(fields, k - 1);
    }
}

proof fn lemma_field_offset_mono(fields: Seq<FieldDefView>, j: int, k: int)
    requires
        0 <= j <= k,
    ensures
        field_offset(fields, j) <= field_offset(fields, k),
    decreases k - j,
{
    if j < k {
        lemma_field_offset_mono(fields, j, k - 1);
    }
}

pub struct DbfParser {
    reader: BinaryReader,
    label: Vec<u8>,
    header: Option<DbfHeader>,
    records_read: u32,
}

impl DbfParser {
    /// A stored header has at most as many fields as a 16-bit header size
    /// leaves room for.
    pub open spec fn wf(&self) -> bool {
        &&& self.header_view() matches Some(h) ==> h.fields.len() <= 2046
        &&& spec_label_is_known(self.label())
    }

    pub closed spec fn bytes(&self) -> Seq<u8> {
        self.reader.bytes()
    }

    /// The label of the encoding that text fields are decoded with.
    pub closed spec fn label(&self) -> Seq<u8> {
        self.label@
    }

    pub closed spec fn pos(&self) -> int {
        self.reader.pos()
    }

    /// The header that `parse_header` stored, if any.
    pub closed spec fn header_view(&self) -> Option<DbfHeaderView> {
        match &self.header {
            Some(h) => Some(h@),
            None => None,
        }
    }

    /// How many records iteration has consumed.
    pub closed spec fn records_read(&self) -> int {
        self.records_read as int
    }

    /// A parser over the file image; text fields are decoded with the
    /// encoding that the label `encoding` names, Shift_JIS when none is given
    /// or encoding_rs does not know it.
    pub fn new(dbf: Vec<u8>, encoding: Option<&[u8]>) -> (r: Result<Self, ShapefileError>)
        ensures
            r matches Ok(pr) && pr.bytes() == dbf@ && pr.pos() == 0 && pr.header_view() is None
                && pr.records_read() == 0 && pr.wf() && pr.label() == resolve_label(opt_slice(encoding)),
    {
        Ok(DbfParser::with_label(dbf, resolved_label(encoding)))
    }

    /// A parser over the file image whose text fields are decoded with the
    /// encoding that `label` names.
    pub fn with_label(dbf: Vec<u8>, label: Vec<u8>) -> (r: Self)
        requires
            spec_label_is_known(label@),
        ensures
            r.bytes() == dbf@ && r.pos() == 0 && r.header_view() is None && r.records_read() == 0,
            r.label() == label@,
            r.wf(),
    {
        DbfParser { reader: BinaryReader::new(dbf), label, header: None, records_read: 0 }
    }

    /// Reads the header at the current position and keeps it for iteration.
    pub fn parse_header(&mut self) -> (r: Result<DbfHeader, ShapefileError>)
        ensures
            final(self).bytes() == old(self).bytes(),
            final(self).label() == old(self).label(),
            match dbf_header_at(old(self).bytes(), old(self).pos()) {
                Some(h) => r matches Ok(x) && x@ == h && final(self).header_view() == Some(h)
                    && final(self).records_read() == 0 && final(self).pos() == old(self).pos() + 33
                    + 32 * h.fields.len(),
                None => r matches Err(e) && e is CorruptedFile && final(self).header_view() == old(self).header_view() && final(self).records_read() == old(self).records_read(),
            },
    {
        let ghost s = self.reader.bytes();
        let ghost p = self.reader.pos();
        proof {
            self.reader.lemma_pos_bounds();
        }
        let _version = self.reader.read_bytes(1)?;
        let _date = self.reader.read_bytes(3)?;
        let num_records = i32_as_u32(self.reader.read_i32_le()?);
        let header_size = i16_as_u16(self.reader.read_i16_le()?);
        let record_size = i16_as_u16(self.reader.read_i16_le()?);
        let _reserved = self.reader.read_bytes(20)?;
        let num_fields: usize = if header_size >= 33 {
            ((header_size - 33) / 32) as usize
        } else {
            0
        };
        assert(header_size as int == u16_le_at(s, p + 8));
        assert(record_size as int == u16_le_at(s, p + 10));
        assert(num_records as int == u32_le_at(s, p + 4));
        let ghost nf = num_fields_of(u16_le_at(s, p + 8));
        assert(num_fields == nf);
        let mut fields: Vec<FieldDef> = Vec::new();
        let mut k: usize = 0;
        while k < num_fields
            invariant
                s == old(self).bytes(),
                self.reader.bytes() == s,
                self.header_view() == old(self).header_view(),
                self.label() == old(self).label(),
                self.records_read() == old(self).records_read(),
                num_fields == nf,
                p == old(self).pos(),
                nf == num_fields_of(u16_le_at(s, p + 8)),
                k <= nf,
                p >= 0,
                self.reader.pos() == p + 32 + 32 * k,
                p + 32 + 32 * k <= s.len(),
                forall|j: int| 0 <= j < k ==> #[trigger] field_desc_ok(s, p + 32 + 32 * j),
                field_views(fields@) == Seq::new(
                    k as nat,
                    |j: int| field_desc(s, p + 32 + 32 * j),
                ),
            decreases nf - k,
        {
            let ghost i = p + 32 + 32 * k;
            let field_bytes = match self.reader.read_bytes(32) {
                Ok(b) => b,
                Err(e) => {
                    proof {
                        lemma_bad_descriptor(s, p, k as int);
                    }
                    return Err(e);
                },
            };
            assert(field_bytes@ == s.subrange(i, i + 32));
            let head = crate::binary_reader::copy_range(&field_bytes, 0, 11);
            assert(head@ == s.subrange(i, i + 11));
            let name_bytes = nonzero_prefix(&head);
            let name = match utf8_to_string(name_bytes.as_slice()) {
                Ok(n) => n,
                Err(m) => {
                    proof {
                        assert(name_bytes@ == desc_name_bytes(s, i));
                        lemma_bad_descriptor(s, p, k as int);
                    }
                    let mut reason = "invalid field name encoding: ".to_string();
                    reason.append(m.as_str());
                    return Err(ShapefileError::CorruptedFile { reason });
                },
            };
            let type_byte = field_bytes[11];
            let field_type = match field_type_from_byte(type_byte) {
                Some(t) => t,
                None => {
                    proof {
                        lemma_bad_descriptor(s, p, k as int);
                    }
                    let mut reason = "unknown field type: 0x".to_string();
                    reason.append(hex_byte(type_byte).as_str());
                    return Err(ShapefileError::CorruptedFile { reason });
                },
            };
            let length = field_bytes[16];
            let decimal_count = field_bytes[17];
            let ghost before = field_views(fields@);
            let fd = FieldDef { name, field_type, length, decimal_count };
            proof {
                assert(name_bytes@ == desc_name_bytes(s, i));
                assert(fd@ == field_desc(s, i));
            }
            fields.push(fd);
            k = k + 1;
            proof {
                assert(field_desc_ok(s, i));
                assert(field_views(fields@) =~= before.push(field_desc(s, i)));
                assert(field_views(fields@) =~= Seq::new(
                    k as nat,
                    |j: int| field_desc(s, p + 32 + 32 * j),
                ));
            }
        }
        let terminator = self.reader.read_bytes(1)?;
        if terminator[0] != 0x0D {
            let mut reason = "expected field descriptor terminator 0x0D, got 0x".to_string();
            reason.append(hex_byte(terminator[0]).as_str());
            return Err(ShapefileError::CorruptedFile { reason });
        }
        let header = DbfHeader { num_records, record_size, fields };
        self.header = Some(
            DbfHeader {
                num_records,
                record_size,
                fields: clone_fields(&header.fields),
            },
        );
        self.records_read = 0;
        Ok(header)
    }

    /// Converts one field's raw bytes into its name and value.
    pub fn parse_field_value(&self, field: &FieldDef, raw_bytes: &[u8]) -> (r: Result<
        (String, AttributeValue),
        ShapefileError,
    >)
        requires
            self.wf(),
            field.field_type is Logical ==> raw_bytes@.len() >= 1,
        ensures
            r matches Ok((n, v)) ==> n@ == field.name@ && value_fits(
                self.label(),
                field.field_type,
                raw_bytes@,
                v@,
            ),
            !(field.field_type is Character) ==> match field_value(field.field_type, raw_bytes@) {
                Some(v) => r matches Ok((n, x)) && x@ == v,
                None => r matches Err(e) && e is CorruptedFile,
            },
            field.field_type is Character ==> (r is Ok <==> !spec_decode(self.label(), raw_bytes@).1),
            field.field_type is Character ==> (r matches Err(e) ==> e is EncodingError),
    {
        let name = field.name.clone();
        match field.field_type {
            FieldType::Character => {
                let (decoded, had_errors) = decode_bytes(self.label.as_slice(), raw_bytes);
                let r = character_field_value(name, decoded, had_errors);
                proof {
                    if r is Ok {
                        assert(r->Ok_0.1@ == character_value(decoded@));
                    }
                }
                r
            },
            FieldType::Logical => {
                let byte = raw_bytes[0];
                let v = if byte == 0x54 || byte == 0x74 || byte == 0x59 || byte == 0x79 {
                    AttributeValue::Logical(true)
                } else if byte == 0x46 || byte == 0x66 || byte == 0x4e || byte == 0x6e {
                    AttributeValue::Logical(false)
                } else {
                    AttributeValue::Null
                };
                Ok((name, v))
            },
            _ => {
                let v = text_field_value(field, raw_bytes)?;
                Ok((name, v))
            },
        }
    }

    /// Reads the fields of one record's data (the bytes after its flag).
    fn parse_record_fields(&self, fields: &Vec<FieldDef>, data: &Vec<u8>) -> (r: Result<
        Vec<(String, AttributeValue)>,
        ShapefileError,
    >)
        requires
            self.wf(),
            field_offset(field_views(fields@), fields@.len() as int)
                <= data@.len(),
            forall|k: int|
                0 <= k < fields@.len() ==> (#[trigger] fields@[k]).field_type is Logical
                    ==> fields@[k].length >= 1,
        ensures
            record_outcome(self.label(), field_views(fields@), data@, r),
            (forall|k: int|
                0 <= k < fields@.len() ==> field_parses(
                    self.label(),
                    fields@[k]@,
                    #[trigger] data_raw(field_views(fields@), data@, k),
                )) ==> r is Ok,
    {
        let ghost fv = field_views(fields@);
        let n = fields.len();
        let dlen = data.len();
        let mut out: Vec<(String, AttributeValue)> = Vec::new();
        let mut offset: usize = 0;
        let mut k: usize = 0;
        while k < n
            invariant
                self.wf(),
                n == fields@.len(),
                dlen == data@.len(),
                fv == field_views(fields@),
                field_offset(fv, n as int) <= data@.len(),
                forall|j: int|
                    0 <= j < n ==> (#[trigger] fields@[j]).field_type is Logical
                        ==> fields@[j].length >= 1,
                k <= n,
                offset == field_offset(fv, k as int),
                out@.len() == k,
                forall|j: int|
                    0 <= j < k ==> (#[trigger] out@[j]).0@ == fv[j].name && value_fits(
                        self.label(),
                        fv[j].field_type,
                        data_raw(fv, data@, j),
                        out@[j].1@,
                    ),
                forall|j: int| 0 <= j < k ==> field_parses(self.label(), fv[j], #[trigger] data_raw(fv, data@, j)),
            decreases n - k,
        {
            let field = &fields[k];
            proof {
                lemma_field_offset_mono(fv, k + 1, n as int);
                assert(fv[k as int] == field@);
                assert(field_offset(fv, k + 1) == offset + field.length);
            }
            let len = field.length as usize;
            let raw = crate::binary_reader::copy_range(data, offset, len);
            assert(raw@ == data_raw(fv, data@, k as int));
            match self.parse_field_value(field, raw.as_slice()) {
                Ok(pair) => {
                    proof {
                        assert(field_parses(self.label(), fv[k as int], raw@));
                    }
                    out.push(pair);
                },
                Err(e) => {
                    proof {
                        assert(field_fails(self.label(), fv[k as int], data_raw(fv, data@, k as int), e));
                    }
                    return Err(e);
                },
            }
            offset = offset + len;
            k = k + 1;
        }
        Ok(out)
    }

    /// The next live record of the table, skipping deleted ones: `None` once
    /// the header's record count has been read (or before any header),
    /// otherwise the record's fields or the error that reading it met.
    #[verifier::rlimit(60)]
    #[verifier::spinoff_prover]
    pub fn next_record(&mut self) -> (r: Option<Result<Vec<(String, AttributeValue)>, ShapefileError>>)
        requires
            old(self).wf(),
            old(self).header_view() matches Some(h) ==> step_safe(
                old(self).bytes(),
                old(self).pos(),
                old(self).records_read(),
                h,
            ),
        ensures
            final(self).bytes() == old(self).bytes(),
            final(self).header_view() == old(self).header_view(),
            final(self).label() == old(self).label(),
            old(self).header_view() is None ==> r is None && final(self).pos() == old(self).pos()
                && final(self).records_read() == old(self).records_read(),
            old(self).header_view() matches Some(h) ==> match dbf_step(
                old(self).bytes(),
                old(self).pos(),
                old(self).records_read(),
                h,
            ) {
                DbfStep::End(q, n) => r is None && final(self).pos() == q
                    && final(self).records_read() == n,
                DbfStep::Failed(n) => (r matches Some(Err(e)) && e is CorruptedFile)
                    && final(self).pos() == old(self).bytes().len()
                    && final(self).records_read() == n,
                DbfStep::Record(q, n) => (r matches Some(x) && record_outcome(
                    old(self).label(),
                    h.fields,
                    old(self).bytes().subrange(q + 1, q + h.record_size),
                    x,
                ) && ((forall|k: int|
                    0 <= k < h.fields.len() ==> field_parses(
                        old(self).label(),
                        h.fields[k],
                        #[trigger] data_raw(
                            h.fields,
                            old(self).bytes().subrange(q + 1, q + h.record_size),
                            k,
                        ),
                    )) ==> x is Ok)) && final(self).pos() == q + h.record_size
                    && final(self).records_read() == n,
                DbfStep::Panics => false,
            },
    {
        let (num_records, record_size) = match &self.header {
            Some(h) => (h.num_records, h.record_size),
            None => {
                return None;
            },
        };
        let ghost h = self.header_view()->Some_0;
        let ghost s = self.bytes();
        let ghost target = dbf_step(s, self.pos(), self.records_read(), h);
        proof {
            self.reader.lemma_pos_bounds();
        }
        loop
            invariant
                self.bytes() == s,
                s == old(self).bytes(),
                old(self).header_view() == Some(h),
                target == dbf_step(old(self).bytes(), old(self).pos(), old(self).records_read(), h),
                self.header_view() == Some(h),
                self.label() == old(self).label(),
                self.wf(),
                h.num_records == num_records,
                h.record_size == record_size,
                self.pos() >= 0,
                dbf_step(s, self.pos(), self.records_read(), h) == target,
                step_safe(s, self.pos(), self.records_read(), h),
                self.records_read() <= num_records || target is End,
            decreases num_records - self.records_read(),
        {
            if self.records_read >= num_records {
                return None;
            }
            let ghost p = self.pos();
            let flag = match self.reader.read_bytes(1) {
                Ok(b) => b[0],
                Err(e) => {
                    return Some(Err(e));
                },
            };
            assert(flag == s[p]);
            let rs = record_size as usize;
            if flag == 0x2A {
                let skip = rs - 1;
                if skip > 0 {
                    if let Err(e) = self.reader.read_bytes(skip) {
                        return Some(Err(e));
                    }
                }
                self.records_read = self.records_read + 1;
                assert(self.pos() == p + record_size);
                continue;
            }
            let data = match self.reader.read_bytes(rs - 1) {
                Ok(b) => b,
                Err(e) => {
                    return Some(Err(e));
                },
            };
            self.records_read = self.records_read + 1;
            assert(target == DbfStep::Record(p, self.records_read as int));
            assert(data@ == s.subrange(p + 1, p + record_size));
            assert(self.pos() == p + record_size);
            let r = match &self.header {
                Some(hd) => {
                    proof {
                        assert(hd@ == h);
                        assert(field_views(hd.fields@) == h.fields);
                        assert forall|k: int|
                            0 <= k < hd.fields@.len() && (#[trigger] hd.fields@[k]).field_type is Logical implies
                            hd.fields@[k].length >= 1 by {
                            assert(h.fields[k] == hd.fields@[k]@);
                        }
                    }
                    let r = self.parse_record_fields(&hd.fields, &data);
                    proof {
                        let d = s.subrange(p + 1, p + record_size);
                        if forall|k: int|
                            0 <= k < h.fields.len() ==> field_parses(
                                self.label(),
                                h.fields[k],
                                #[trigger] data_raw(h.fields, d, k),
                            ) {
                            assert forall|k: int| 0 <= k < hd.fields@.len() implies field_parses(
                                self.label(),
                                hd.fields@[k]@,
                                #[trigger] data_raw(field_views(hd.fields@), data@, k),
                            ) by {
                                assert(h.fields[k] == hd.fields@[k]@);
                                assert(data_raw(h.fields, d, k) == data_raw(field_views(hd.fields@), data@, k));
                            }
                            assert(r is Ok);
                        }
                    }
                    r
                },
                None => {
                    return None;
                },
            };
            assert(record_outcome(self.label(), h.fields, s.subrange(p + 1, p + record_size), r));
            return Some(r);
        }
    }

    /// Whether a header is stored and its fields fit its record size, so
    /// that reading records cannot panic.
    pub fn layout_fits(&self) -> (r: bool)
        ensures
            r == (self.header_view() matches Some(h) && fields_fit(h)),
    {
        match &self.header {
            None => false,
            Some(h) => {
                let ghost fv = field_views(h.fields@);
                let n = h.fields.len();
                let mut sum: u128 = 0;
                let mut k: usize = 0;
                assert(self.header_view() == Some(h@));
                while k < n
                    invariant
                        n == h.fields@.len(),
                        fv == field_views(h.fields@),
                        self.header_view() == Some(h@),
                        h@.fields == fv,
                        k <= n,
                        sum == field_offset(fv, k as int),
                        sum <= 255 * k,
                        forall|j: int| 0 <= j < k ==> (#[trigger] fv[j]).field_type is Logical ==> fv[j].length >= 1,
                    decreases n - k,
                {
                    let f = &h.fields[k];
                    assert(fv[k as int] == f@);
                    if matches!(f.field_type, FieldType::Logical) && f.length == 0 {
                        assert(h@.fields[k as int].field_type is Logical && h@.fields[k as int].length == 0);
                        return false;
                    }
                    sum = sum + f.length as u128;
                    k = k + 1;
                }
                sum + 1 <= h.record_size as u128
            },
        }
    }

    /// Reading any record the stored header describes cannot panic when its
    /// fields fit the record size.
    pub proof fn lemma_step_safe(s: Seq<u8>, p: int, read: int, h: DbfHeaderView)
        requires
            fields_fit(h),
        ensures
            step_safe(s, p, read, h),
        decreases h.num_records - read,
    {
        lemma_field_offset_nonneg(h.fields, h.fields.len() as int);
        if read < h.num_records && 0 <= p < s.len() && p + h.record_size <= s.len() && s[p] == 0x2a {
            DbfParser::lemma_step_safe(s, p + h.record_size, read + 1, h);
        }
    }

    /// Moves back to the first record, just past a header of as many field
    /// descriptors as the stored header has; nothing happens before a header.
    pub fn seek_to_records(&mut self) -> (r: Result<(), ShapefileError>)
        requires
            old(self).wf(),
        ensures
            r is Ok,
            final(self).label() == old(self).label(),
            final(self).bytes() == old(self).bytes(),
            final(self).header_view() == old(self).header_view(),
            old(self).header_view() matches Some(h) ==> final(self).pos() == 33 + 32
                * h.fields.len() && final(self).records_read() == 0,
            old(self).header_view() is None ==> final(self).pos() == old(self).pos()
                && final(self).records_read() == old(self).records_read(),
    {
        let nf = match &self.header {
            Some(h) => h.fields.len(),
            None => {
                return Ok(());
            },
        };
        let header_size: u64 = 32 + (nf as u64) * 32 + 1;
        self.reader.seek_from_start(header_size)?;
        self.records_read = 0;
        Ok(())
    }
}

/// The upper-case hexadecimal digit of `d` (below 16).
pub open spec fn hex_digit(d: u8) -> char {
    if d < 10 {
        ((48 + d) as u8) as char
    } else {
        ((55 + d) as u8) as char
    }
}

fn hex_digit_of(d: u8) -> (r: char)
    requires
        d < 16,
    ensures
        r == hex_digit(d),
{
    if d < 10 {
        (48 + d) as char
    } else {
        (55 + d) as char
    }
}

/// Two upper-case hexadecimal digits of `b` (`{:02X}`).
pub fn hex_byte(b: u8) -> (r: String)
    ensures
        r@ == seq![hex_digit(b / 16), hex_digit(b % 16)],
{
    let v: Vec<char> = vec![hex_digit_of(b / 16), hex_digit_of(b % 16)];
    proof {
        assert(v@ =~= seq![hex_digit(b / 16), hex_digit(b % 16)]);
    }
    string_from_chars(v.as_slice())
}

} // verus!
