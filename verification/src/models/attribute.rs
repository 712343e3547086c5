//! Attribute tables: field definitions and attribute values.
use crate::number::{Number, NumberView};
use crate::text::starts_with as str_starts_with;
use vstd::prelude::*;

verus! {

/// Field type in a dBASE (.dbf) file.
#[derive(Debug, Clone, Copy, PartialEq, Eq, Hash)]
pub enum FieldType {
    /// Fixed-length character string.
    Character,
    /// Numeric value stored as ASCII digits.
    Numeric,
    /// Floating-point numeric value.
    Float,
    /// Date stored as YYYYMMDD.
    Date,
    /// Boolean (T/F/Y/N).
    Logical,
}

impl FieldType {
    /// The variant's name.
    pub open spec fn spec_name(&self) -> Seq<char> {
        match self {
            FieldType::Character => "Character"@,
            FieldType::Numeric => "Numeric"@,
            FieldType::Float => "Float"@,
            FieldType::Date => "Date"@,
            FieldType::Logical => "Logical"@,
        }
    }

    /// The variant's name, as `{:?}` writes it.
    pub fn name(&self) -> (r: &'static str)
        ensures
            r@ == self.spec_name(),
    {
        match self {
            FieldType::Character => "Character",
            FieldType::Numeric => "Numeric",
            FieldType::Float => "Float",
            FieldType::Date => "Date",
            FieldType::Logical => "Logical",
        }
    }
}

/// Field definition from a DBF header.
#[derive(Debug, PartialEq, Eq)]
pub struct FieldDef {
    pub name: String,
    pub field_type: FieldType,
    pub length: u8,
    pub decimal_count: u8,
}

impl Clone for FieldDef {
    fn clone(&self) -> (r: Self)
        ensures
            r == *self,
    {
        FieldDef {
            name: self.name.clone(),
            field_type: self.field_type,
            length: self.length,
            decimal_count: self.decimal_count,
        }
    }
}

impl FieldDef {
    pub open spec fn spec_is_numeric(&self) -> bool {
        self.field_type is Numeric || self.field_type is Float
    }

    /// Whether this field is numeric (valid for `describe()`).
    pub fn is_numeric(&self) -> (r: bool)
        ensures
            r == self.spec_is_numeric(),
    {
        match self.field_type {
            FieldType::Numeric | FieldType::Float => true,
            _ => false,
        }
    }
}

/// A single attribute value.
#[derive(Debug, PartialEq)]
pub enum AttributeValue {
    /// Character string value.
    Text(String),
    /// Numeric (integer or decimal) value.
    Numeric(Number),
    /// Date stored as a "YYYYMMDD" string.
    Date(String),
    /// Boolean value.
    Logical(bool),
    /// Null / empty value.
    Null,
}

/// An attribute value as a mathematical value.
pub enum AttrView {
    Text(Seq<char>),
    Numeric(NumberView),
    Date(Seq<char>),
    Logical(bool),
    Null,
}

impl View for AttributeValue {
    type V = AttrView;

    open spec fn view(&self) -> AttrView {
        match self {
            AttributeValue::Text(s) => AttrView::Text(s@),
            AttributeValue::Numeric(n) => AttrView::Numeric(n@),
            AttributeValue::Date(s) => AttrView::Date(s@),
            AttributeValue::Logical(b) => AttrView::Logical(*b),
            AttributeValue::Null => AttrView::Null,
        }
    }
}

/// A field definition as a mathematical value.
pub struct FieldDefView {
    pub name: Seq<char>,
    pub field_type: FieldType,
    pub length: u8,
    pub decimal_count: u8,
}

impl View for FieldDef {
    type V = FieldDefView;

    open spec fn view(&self) -> FieldDefView {
        FieldDefView {
            name: self.name@,
            field_type: self.field_type,
            length: self.length,
            decimal_count: self.decimal_count,
        }
    }
}

impl Clone for AttributeValue {
    fn clone(&self) -> (r: Self)
        ensures
            r == *self,
    {
        match self {
            AttributeValue::Text(s) => AttributeValue::Text(s.clone()),
            AttributeValue::Numeric(n) => AttributeValue::Numeric(n.clone()),
            AttributeValue::Date(s) => AttributeValue::Date(s.clone()),
            AttributeValue::Logical(b) => AttributeValue::Logical(*b),
            AttributeValue::Null => AttributeValue::Null,
        }
    }
}

impl AttributeValue {
    /// Prefix match on the characters of a `Text` value.
    pub open spec fn spec_starts_with(&self, prefix: Seq<char>) -> bool {
        match self {
            AttributeValue::Text(s) => prefix.len() <= s@.len() && s@.subrange(
                0,
                prefix.len() as int,
            ) == prefix,
            _ => false,
        }
    }

    /// Returns the inner string if this is a `Text` value.
    pub fn as_str(&self) -> (r: Option<&str>)
        ensures
            self is Text <==> r is Some,
            r matches Some(s) ==> self matches AttributeValue::Text(t) && s@ == t@,
    {
        match self {
            AttributeValue::Text(s) => Some(s.as_str()),
            _ => None,
        }
    }

    /// Returns the inner number if this is a `Numeric` value.
    pub fn as_number(&self) -> (r: Option<&Number>)
        ensures
            self is Numeric <==> r is Some,
            r matches Some(n) ==> self matches AttributeValue::Numeric(m) && *n == m,
    {
        match self {
            AttributeValue::Numeric(n) => Some(n),
            _ => None,
        }
    }

    /// Returns the inner `bool` if this is a `Logical` value.
    pub fn as_bool(&self) -> (r: Option<bool>)
        ensures
            self is Logical <==> r is Some,
            r matches Some(b) ==> self matches AttributeValue::Logical(c) && b == c,
    {
        match self {
            AttributeValue::Logical(b) => Some(*b),
            _ => None,
        }
    }

    /// Prefix match (only effective for the `Text` variant).
    pub fn starts_with(&self, prefix: &str) -> (r: bool)
        ensures
            r == self.spec_starts_with(prefix@),
    {
        match self {
            AttributeValue::Text(s) => str_starts_with(s.as_str(), prefix),
            _ => false,
        }
    }

    /// Whether this is a numeric value (valid target for `describe()`).
    pub fn is_numeric(&self) -> (r: bool)
        ensures
            r == self is Numeric,
    {
        match self {
            AttributeValue::Numeric(_) => true,
            _ => false,
        }
    }
}

/// The key-value map that a list of insertions builds, later keys replacing
/// earlier ones.
pub open spec fn entries_map(s: Seq<(String, AttributeValue)>) -> Map<Seq<char>, AttributeValue>
    decreases s.len(),
{
    if s.len() == 0 {
        Map::empty()
    } else {
        entries_map(s.drop_last()).insert(s.last().0@, s.last().1)
    }
}

/// Attribute key-value pairs of one record: a map from field name to value.
#[derive(Debug)]
pub struct Attributes {
    entries: Vec<(String, AttributeValue)>,
}

impl View for Attributes {
    type V = Map<Seq<char>, AttributeValue>;

    closed spec fn view(&self) -> Map<Seq<char>, AttributeValue> {
        entries_map(self.entries@)
    }
}

proof fn lemma_entries_map_last(s: Seq<(String, AttributeValue)>, i: int, key: Seq<char>)
    requires
        0 <= i < s.len(),
        s[i].0@ == key,
        forall|j: int| i < j < s.len() ==> (#[trigger] s[j]).0@ != key,
    ensures
        entries_map(s).contains_key(key),
        entries_map(s)[key] == s[i].1,
    decreases s.len(),
{
    if i < s.len() - 1 {
        lemma_entries_map_last(s.drop_last(), i, key);
    }
}

proof fn lemma_entries_map_absent(s: Seq<(String, AttributeValue)>, key: Seq<char>)
    requires
        forall|j: int| 0 <= j < s.len() ==> (#[trigger] s[j]).0@ != key,
    ensures
        !entries_map(s).contains_key(key),
    decreases s.len(),
{
    if s.len() > 0 {
        lemma_entries_map_absent(s.drop_last(), key);
    }
}

impl Attributes {
    /// An empty map.
    pub fn new() -> (r: Self)
        ensures
            r@ == Map::<Seq<char>, AttributeValue>::empty(),
    {
        Attributes { entries: Vec::new() }
    }

    /// The map that inserting `entries` in order into an empty map builds.
    pub fn from_entries(entries: Vec<(String, AttributeValue)>) -> (r: Self)
        ensures
            r@ == entries_map(entries@),
    {
        Attributes { entries }
    }

    /// Sets `key` to `value`, replacing any earlier value of `key`.
    pub fn insert(&mut self, key: String, value: AttributeValue)
        ensures
            final(self)@ == old(self)@.insert(key@, value),
    {
        let ghost old_entries = self.entries@;
        self.entries.push((key, value));
        proof {
            assert(self.entries@.drop_last() =~= old_entries);
        }
    }

    /// The value of `field`, if present.
    pub fn get(&self, field: &str) -> (r: Option<&AttributeValue>)
        ensures
            self@.contains_key(field@) <==> r is Some,
            r matches Some(v) ==> *v == self@[field@],
    {
        let n = self.entries.len();
        let mut i = n;
        while i > 0
            invariant
                n == self.entries@.len(),
                i <= n,
                forall|j: int| i <= j < n ==> (#[trigger] self.entries@[j]).0@ != field@,
            decreases i,
        {
            let e = &self.entries[i - 1];
            if crate::text::str_eq(e.0.as_str(), field) {
                proof {
                    lemma_entries_map_last(self.entries@, i - 1, field@);
                }
                return Some(&e.1);
            }
            i = i - 1;
        }
        proof {
            lemma_entries_map_absent(self.entries@, field@);
        }
        None
    }

    /// Whether no field has a value.
    pub fn is_empty(&self) -> (r: bool)
        ensures
            r == (self@ == Map::<Seq<char>, AttributeValue>::empty()),
    {
        if self.entries.len() == 0 {
            assert(self@ =~= Map::<Seq<char>, AttributeValue>::empty());
            true
        } else {
            assert(self@.contains_key(self.entries@.last().0@));
            false
        }
    }

    /// Whether `field` has a value.
    pub fn contains_key(&self, field: &str) -> (r: bool)
        ensures
            r == self@.contains_key(field@),
    {
        self.get(field).is_some()
    }

    /// The insertions that built this map, in order; replaying them into an
    /// empty map gives the same map.
    pub fn entries(&self) -> (r: &Vec<(String, AttributeValue)>)
        ensures
            entries_map(r@) == self@,
    {
        &self.entries
    }
}

impl Clone for Attributes {
    fn clone(&self) -> (r: Self)
        ensures
            r@ == self@,
    {
        let mut out: Vec<(String, AttributeValue)> = Vec::new();
        let mut i: usize = 0;
        let n = self.entries.len();
        while i < n
            invariant
                n == self.entries@.len(),
                i <= n,
                out@ == self.entries@.take(i as int),
            decreases n - i,
        {
            let e = &self.entries[i];
            out.push((e.0.clone(), e.1.clone()));
            i = i + 1;
            assert(out@ =~= self.entries@.take(i as int));
        }
        assert(self.entries@.take(n as int) =~= self.entries@);
        Attributes { entries: out }
    }
}

} // verus!
