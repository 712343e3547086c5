//! Coordinate reference systems given as OGC WKT text.
use crate::text::{chars_of, contains, contains_seq};
use vstd::prelude::*;

verus! {

/// Coordinate Reference System parsed from a .prj file (OGC WKT format).
#[derive(Debug, Clone, PartialEq, Eq)]
pub struct Crs {
    /// The raw WKT string describing the coordinate reference system.
    pub wkt: String,
}

/// Index of the first `c` at or after `from`, if any.
#[verifier::opaque]
pub open spec fn first_index_of(s: Seq<char>, c: char, from: int) -> Option<int> {
    if exists|i: int| from <= i < s.len() && s[i] == c {
        Some(choose|i: int| from <= i < s.len() && s[i] == c && forall|j: int| from <= j < i ==> s[j] != c)
    } else {
        None
    }
}

proof fn lemma_first_index(s: Seq<char>, c: char, from: int, i: int)
    requires
        from <= i < s.len(),
        s[i] == c,
        forall|j: int| from <= j < i ==> s[j] != c,
    ensures
        first_index_of(s, c, from) == Some(i),
{
    reveal(first_index_of);
    let k = choose|k: int| from <= k < s.len() && s[k] == c && forall|j: int| from <= j < k ==> s[j] != c;
    assert(from <= k < s.len() && s[k] == c && forall|j: int| from <= j < k ==> s[j] != c);
    if k < i {
        assert(s[k] != c);
    } else if k > i {
        assert(s[i] != c);
    }
}

/// The first index at or after `from` holding `c`.
fn find_char_from(v: &Vec<char>, c: char, from: usize) -> (r: Option<usize>)
    requires
        from <= v@.len(),
    ensures
        r matches Some(i) ==> from <= i < v@.len() && first_index_of(v@, c, from as int) == Some(
            i as int,
        ),
        r is None ==> first_index_of(v@, c, from as int) is None,
{
    let mut i = from;
    let n = v.len();
    while i < n
        invariant
            n == v@.len(),
            from <= i <= n,
            forall|j: int| from <= j < i ==> v@[j] != c,
        decreases n - i,
    {
        proof {
            reveal(first_index_of);
        }
        if v[i] == c {
            proof {
                lemma_first_index(v@, c, from as int, i as int);
            }
            return Some(i);
        }
        i = i + 1;
    }
    proof {
        reveal(first_index_of);
    }
    None
}

impl Crs {
    /// The text between the first two double quotes of the WKT.
    pub open spec fn spec_name(&self) -> Option<Seq<char>> {
        let s = self.wkt@;
        match first_index_of(s, '"', 0) {
            None => None,
            Some(a) => match first_index_of(s, '"', a + 1) {
                None => None,
                Some(b) => Some(s.subrange(a + 1, b)),
            },
        }
    }

    /// Extracts the CRS name from the WKT: the text inside the first pair of
    /// double quotes.
    pub fn name(&self) -> (r: Option<&str>)
        ensures
            r is Some <==> self.spec_name() is Some,
            r matches Some(n) ==> n@ == self.spec_name().unwrap(),
    {
        let s = chars_of(self.wkt.as_str());
        let n = s.len();
        assert(s@ == self.wkt@);
        let a = match find_char_from(&s, '"', 0) {
            Some(a) => a,
            None => return None,
        };
        let b = match find_char_from(&s, '"', a + 1) {
            Some(b) => b,
            None => return None,
        };
        assert(first_index_of(self.wkt@, '"', 0) == Some(a as int));
        assert(first_index_of(self.wkt@, '"', a + 1) == Some(b as int));
        Some(self.wkt.as_str().substring_char(a + 1, b))
    }

    /// Whether this is a geographic CRS (degree units): the WKT contains
    /// `GEOGCS` and does not contain `PROJCS`.
    pub fn is_geographic(&self) -> (r: bool)
        ensures
            r == (contains_seq(self.wkt@, "GEOGCS"@) && !contains_seq(self.wkt@, "PROJCS"@)),
    {
        contains(self.wkt.as_str(), "GEOGCS") && !contains(self.wkt.as_str(), "PROJCS")
    }
}

} // verus!
