//! Shape records: a geometry with its attributes, and the queries every
//! reader offers over its records.
use crate::error::ShapefileError;
use crate::models::attribute::{AttributeValue, Attributes};
use crate::models::geometry::Geometry;
use crate::mvt_reader::{field_starts_with, keep};
use crate::number::Number;
use vstd::prelude::*;

verus! {

/// A single record: a geometry combined with its attributes.
#[derive(Debug)]
pub struct ShapeRecord {
    /// 1-based record number.
    pub record_number: u32,
    /// The geometry (point, polyline, polygon, etc.) of this record.
    pub geometry: Geometry,
    /// Attribute key-value pairs.
    pub attributes: Attributes,
}

impl ShapeRecord {
    /// Returns the attribute value for the given field name, if present.
    pub fn get_attr(&self, field: &str) -> (r: Option<&AttributeValue>)
        ensures
            self.attributes@.contains_key(field@) <==> r is Some,
            r matches Some(v) ==> *v == self.attributes@[field@],
    {
        self.attributes.get(field)
    }
}

/// The records that a list of references points to.
pub open spec fn record_derefs(s: Seq<&ShapeRecord>) -> Seq<ShapeRecord> {
    s.map_values(|r: &ShapeRecord| *r)
}

/// How many records a `limit` lets through out of `n`.
pub open spec fn limited(limit: Option<usize>, n: int) -> int {
    match limit {
        Some(l) => if l < n {
            l as int
        } else {
            n
        },
        None => n,
    }
}

/// The first `limit` records (all when there is no limit).
pub fn take_records(records: &Vec<ShapeRecord>, limit: Option<usize>) -> (r: Vec<&ShapeRecord>)
    ensures
        record_derefs(r@) == records@.take(limited(limit, records@.len() as int)),
{
    let len = records.len();
    let m = match limit {
        Some(n) => if n < len {
            n
        } else {
            len
        },
        None => len,
    };
    let mut out: Vec<&ShapeRecord> = Vec::new();
    let mut i: usize = 0;
    while i < m
        invariant
            len == records@.len(),
            m <= len,
            i <= m,
            record_derefs(out@) == records@.take(i as int),
        decreases m - i,
    {
        let ghost before = record_derefs(out@);
        out.push(&records[i]);
        assert(record_derefs(out@) =~= before.push(records@[i as int]));
        i = i + 1;
        assert(record_derefs(out@) =~= records@.take(i as int));
    }
    out
}

/// The records whose `field` is a text starting with `prefix`, in order.
pub fn records_starting_with<'a>(records: &'a Vec<ShapeRecord>, field: &str, prefix: &str) -> (r: Vec<
    &'a ShapeRecord,
>)
    ensures
        record_derefs(r@) == keep(
            records@,
            |rec: ShapeRecord| field_starts_with(rec.attributes@, field@, prefix@),
        ),
{
    let ghost p = |rec: ShapeRecord| field_starts_with(rec.attributes@, field@, prefix@);
    let n = records.len();
    let mut out: Vec<&ShapeRecord> = Vec::new();
    let mut i: usize = 0;
    while i < n
        invariant
            n == records@.len(),
            i <= n,
            p == (|rec: ShapeRecord| field_starts_with(rec.attributes@, field@, prefix@)),
            record_derefs(out@) == keep(records@.take(i as int), p),
        decreases n - i,
    {
        let rec = &records[i];
        let hit = match rec.attributes.get(field) {
            Some(v) => v.starts_with(prefix),
            None => false,
        };
        proof {
            assert(records@.take(i + 1).drop_last() =~= records@.take(i as int));
            assert(records@.take(i + 1).last() == *rec);
            assert(hit == p(*rec));
        }
        let ghost before = record_derefs(out@);
        if hit {
            out.push(rec);
            assert(record_derefs(out@) =~= before.push(*rec));
        }
        i = i + 1;
    }
    assert(records@.take(n as int) =~= records@);
    out
}

/// The numbers among the values of `field`, record by record.
pub open spec fn record_numbers(recs: Seq<ShapeRecord>, field: Seq<char>) -> Seq<Number>
    decreases recs.len(),
{
    if recs.len() == 0 {
        Seq::empty()
    } else {
        let r = record_numbers(recs.drop_last(), field);
        let a = recs.last().attributes@;
        if a.contains_key(field) && a[field] is Numeric {
            r.push(a[field]->Numeric_0)
        } else {
            r
        }
    }
}

/// A record whose `field` holds no number (it lacks the field, or holds
/// text, a date, a logical or null) contributes nothing to the numbers of
/// `field`: leaving it out changes nothing.
pub proof fn lemma_non_numeric_contributes_nothing(recs: Seq<ShapeRecord>, field: Seq<char>, k: int)
    requires
        0 <= k < recs.len(),
        !(recs[k].attributes@.contains_key(field) && recs[k].attributes@[field] is Numeric),
    ensures
        record_numbers(recs.remove(k), field) == record_numbers(recs, field),
    decreases recs.len(),
{
    if k == recs.len() - 1 {
        assert(recs.remove(k) =~= recs.drop_last());
    } else {
        lemma_non_numeric_contributes_nothing(recs.drop_last(), field, k);
        assert(recs.remove(k).drop_last() =~= recs.drop_last().remove(k));
        assert(recs.remove(k).last() == recs.last());
    }
}

/// When every record's `field` holds a number, the numbers of `field` are
/// those numbers, one per record, in record order.
pub proof fn lemma_numeric_records_give_their_numbers(recs: Seq<ShapeRecord>, field: Seq<char>)
    requires
        forall|k: int|
            0 <= k < recs.len() ==> (#[trigger] recs[k]).attributes@.contains_key(field)
                && recs[k].attributes@[field] is Numeric,
    ensures
        record_numbers(recs, field).len() == recs.len(),
        forall|k: int|
            0 <= k < recs.len() ==> recs[k].attributes@[field] == AttributeValue::Numeric(
                #[trigger] record_numbers(recs, field)[k],
            ),
    decreases recs.len(),
{
    if recs.len() > 0 {
        let d = recs.drop_last();
        assert forall|k: int| 0 <= k < d.len() implies (#[trigger] d[k]).attributes@.contains_key(field)
            && d[k].attributes@[field] is Numeric by {
            assert(d[k] == recs[k]);
        }
        lemma_numeric_records_give_their_numbers(d, field);
        assert(recs.last() == recs[recs.len() - 1]);
        assert forall|k: int| 0 <= k < recs.len() implies recs[k].attributes@[field] == AttributeValue::Numeric(
            #[trigger] record_numbers(recs, field)[k],
        ) by {
            if k < recs.len() - 1 {
                assert(recs[k] == d[k]);
            }
        }
    }
}

/// Some record has `field`.
pub open spec fn some_record_has(recs: Seq<ShapeRecord>, field: Seq<char>) -> bool {
    exists|k: int| 0 <= k < recs.len() && (#[trigger] recs[k]).attributes@.contains_key(field)
}

/// The numbers that `describe` summarises over records without a declared
/// schema: fails with `FieldNotFound` when no record has `field`, and with
/// `DescribeOnNonNumericField` when none of its values is a number.
pub fn collect_numeric_values(records: &Vec<ShapeRecord>, field: &str) -> (r: Result<
    Vec<Number>,
    ShapefileError,
>)
    ensures
        !some_record_has(records@, field@) ==> (r matches Err(ShapefileError::FieldNotFound(n)) && n@
            == field@),
        some_record_has(records@, field@) ==> match r {
            Ok(v) => v@ == record_numbers(records@, field@) && v@.len() > 0,
            Err(e) => e matches ShapefileError::DescribeOnNonNumericField { field: f, field_type: t } && f@
                == field@ && t@ == "non-numeric"@ && record_numbers(records@, field@).len() == 0,
        },
{
    let (found, values) = scan_numbers(records, field);
    if !found {
        return Err(ShapefileError::FieldNotFound(field.to_string()));
    }
    if values.len() == 0 {
        return Err(
            ShapefileError::DescribeOnNonNumericField {
                field: field.to_string(),
                field_type: "non-numeric".to_string(),
            },
        );
    }
    Ok(values)
}

/// Whether some record has `field`, and the numeric values of `field`.
pub fn scan_numbers(records: &Vec<ShapeRecord>, field: &str) -> (r: (bool, Vec<Number>))
    ensures
        r.0 == some_record_has(records@, field@),
        r.1@ == record_numbers(records@, field@),
{
    let n = records.len();
    let mut found = false;
    let mut values: Vec<Number> = Vec::new();
    let mut i: usize = 0;
    while i < n
        invariant
            n == records@.len(),
            i <= n,
            found <==> exists|k: int| 0 <= k < i && (#[trigger] records@[k]).attributes@.contains_key(field@),
            values@ == record_numbers(records@.take(i as int), field@),
        decreases n - i,
    {
        let rec = &records[i];
        proof {
            assert(records@.take(i + 1).drop_last() =~= records@.take(i as int));
            assert(records@.take(i + 1).last() == *rec);
        }
        match rec.attributes.get(field) {
            Some(v) => {
                found = true;
                match v {
                    AttributeValue::Numeric(x) => {
                        values.push(x.clone());
                    },
                    _ => {},
                }
            },
            None => {},
        }
        i = i + 1;
    }
    assert(records@.take(n as int) =~= records@);
    (found, values)
}

/// The records whose `field` is a text starting with `prefix`, moved out of
/// `all` in order.
pub fn keep_starting_with(all: Vec<ShapeRecord>, field: &str, prefix: &str) -> (r: Vec<ShapeRecord>)
    ensures
        r@ == keep(all@, |rec: ShapeRecord| field_starts_with(rec.attributes@, field@, prefix@)),
{
    let ghost p = |rec: ShapeRecord| field_starts_with(rec.attributes@, field@, prefix@);
    let ghost target = keep(all@, p);
    let mut all = all;
    let mut rev: Vec<ShapeRecord> = Vec::new();
    while all.len() > 0
        invariant
            p == (|rec: ShapeRecord| field_starts_with(rec.attributes@, field@, prefix@)),
            target == keep(all@, p) + rev@.reverse(),
        decreases all@.len(),
    {
        let ghost before = all@;
        let ghost rev0 = rev@;
        let rec = all.pop().unwrap();
        let hit = match rec.attributes.get(field) {
            Some(v) => v.starts_with(prefix),
            None => false,
        };
        proof {
            assert(before.drop_last() =~= all@);
            assert(before.last() == rec);
            assert(hit == p(rec));
        }
        if hit {
            rev.push(rec);
            assert(rev@.reverse() =~= seq![rec] + rev0.reverse());
            assert(keep(before, p) == keep(all@, p).push(rec));
            assert(target =~= keep(all@, p) + rev@.reverse());
        }
    }
    assert(keep(all@, p) =~= Seq::<ShapeRecord>::empty());
    let mut out: Vec<ShapeRecord> = Vec::new();
    assert(target =~= out@ + rev@.reverse());
    while rev.len() > 0
        invariant
            target == out@ + rev@.reverse(),
        decreases rev@.len(),
    {
        let ghost before = rev@;
        let rec = rev.pop().unwrap();
        out.push(rec);
        proof {
            assert(before.reverse() =~= seq![rec] + rev@.reverse());
            assert(target =~= out@ + rev@.reverse());
        }
    }
    assert(rev@.reverse() =~= Seq::<ShapeRecord>::empty());
    assert(target =~= out@);
    out
}

} // verus!
