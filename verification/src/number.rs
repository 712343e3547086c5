//! Real numbers as their sources deliver them, and the decimal grammar that
//! decides which texts are numbers.
use vstd::prelude::*;

verus! {

/// A real number exactly as its source delivered it.
#[derive(Debug, PartialEq)]
pub enum Number {
    /// The IEEE-754 binary64 bit pattern of the value (binary formats and
    /// already-parsed JSON numbers).
    Bits(u64),
    /// Decimal text that Rust's float grammar accepts (text formats); its
    /// value is the binary64 number nearest to it.
    Decimal(String),
    /// An integer; its value is the binary64 number nearest to it.
    Integer(i128),
    /// The IEEE-754 binary32 bit pattern of the value, which binary64 holds
    /// exactly.
    Single(u32),
}

/// A number as a mathematical value.
pub enum NumberView {
    Bits(u64),
    Decimal(Seq<char>),
    Integer(i128),
    Single(u32),
}

impl View for Number {
    type V = NumberView;

    open spec fn view(&self) -> NumberView {
        match self {
            Number::Bits(b) => NumberView::Bits(*b),
            Number::Decimal(s) => NumberView::Decimal(s@),
            Number::Integer(i) => NumberView::Integer(*i),
            Number::Single(b) => NumberView::Single(*b),
        }
    }
}

impl Clone for Number {
    fn clone(&self) -> (r: Self)
        ensures
            r == *self,
    {
        match self {
            Number::Bits(b) => Number::Bits(*b),
            Number::Decimal(s) => Number::Decimal(s.clone()),
            Number::Integer(i) => Number::Integer(*i),
            Number::Single(b) => Number::Single(*b),
        }
    }
}

pub open spec fn is_digit(c: char) -> bool {
    '0' <= c <= '9'
}

pub open spec fn all_digits(s: Seq<char>) -> bool {
    forall|i: int| 0 <= i < s.len() ==> is_digit(#[trigger] s[i])
}

pub open spec fn is_sign(c: char) -> bool {
    c == '+' || c == '-'
}

pub open spec fn is_exp_mark(c: char) -> bool {
    c == 'e' || c == 'E'
}

/// `s` spells `word` with each letter in either case; `lw` and `uw` are the
/// word in lower and in upper case.
pub open spec fn eq_ignore_case(s: Seq<char>, lw: Seq<char>, uw: Seq<char>) -> bool {
    s.len() == lw.len() && forall|i: int|
        0 <= i < s.len() ==> (#[trigger] s[i] == lw[i] || s[i] == uw[i])
}

/// `Digit+ | Digit+ '.' Digit* | Digit* '.' Digit+`
pub open spec fn is_mantissa(m: Seq<char>) -> bool {
    (m.len() >= 1 && all_digits(m)) || exists|d: int|
        0 <= d < m.len() && #[trigger] m[d] == '.' && all_digits(m.take(d)) && all_digits(
            m.skip(d + 1),
        ) && m.len() >= 2
}

/// `Sign? Digit+`
pub open spec fn is_signed_digits(s: Seq<char>) -> bool {
    (s.len() >= 1 && all_digits(s)) || (s.len() >= 2 && is_sign(s[0]) && all_digits(s.skip(1)))
}

/// `Number ::= Mantissa Exp?` with `Exp ::= 'e' Sign? Digit+`
pub open spec fn is_decimal_number(s: Seq<char>) -> bool {
    is_mantissa(s) || exists|k: int|
        0 <= k < s.len() && is_exp_mark(#[trigger] s[k]) && is_mantissa(s.take(k))
            && is_signed_digits(s.skip(k + 1))
}

pub open spec fn is_unsigned_float(s: Seq<char>) -> bool {
    eq_ignore_case(s, seq!['i', 'n', 'f'], seq!['I', 'N', 'F']) || eq_ignore_case(
        s,
        seq!['i', 'n', 'f', 'i', 'n', 'i', 't', 'y'],
        seq!['I', 'N', 'F', 'I', 'N', 'I', 'T', 'Y'],
    ) || eq_ignore_case(s, seq!['n', 'a', 'n'], seq!['N', 'A', 'N']) || is_decimal_number(s)
}

/// The texts that Rust's `FromStr` for binary64 accepts, per its documented
/// grammar: `Float ::= Sign? ( 'inf' | 'infinity' | 'nan' | Number )`,
/// compared after lower-casing.
pub open spec fn is_float_literal(s: Seq<char>) -> bool {
    is_unsigned_float(s) || (s.len() >= 1 && is_sign(s[0]) && is_unsigned_float(s.skip(1)))
}

fn digits_in(s: &Vec<char>, from: usize, to: usize) -> (r: bool)
    requires
        from <= to <= s.len(),
    ensures
        r == all_digits(s@.subrange(from as int, to as int)),
{
    let mut i = from;
    while i < to
        invariant
            from <= i <= to <= s.len(),
            forall|k: int| from <= k < i ==> is_digit(#[trigger] s@[k]),
        decreases to - i,
    {
        if !('0' <= s[i] && s[i] <= '9') {
            assert(s@.subrange(from as int, to as int)[i - from] == s@[i as int]);
            return false;
        }
        i = i + 1;
    }
    assert forall|k: int| 0 <= k < to - from implies is_digit(
        #[trigger] s@.subrange(from as int, to as int)[k],
    ) by {
        assert(s@.subrange(from as int, to as int)[k] == s@[k + from]);
    }
    true
}

/// The first index in `[from, to)` whose character satisfies `is_dot` (a dot)
/// or, otherwise, an exponent mark; `to` when there is none.
fn find_char(s: &Vec<char>, from: usize, to: usize, dot: bool) -> (r: usize)
    requires
        from <= to <= s.len(),
    ensures
        from <= r <= to,
        forall|k: int|
            from <= k < r ==> (if dot {
                #[trigger] s@[k] != '.'
            } else {
                !is_exp_mark(s@[k])
            }),
        r < to ==> (if dot {
            s@[r as int] == '.'
        } else {
            is_exp_mark(s@[r as int])
        }),
{
    let mut i = from;
    while i < to
        invariant
            from <= i <= to <= s.len(),
            forall|k: int|
                from <= k < i ==> (if dot {
                    #[trigger] s@[k] != '.'
                } else {
                    !is_exp_mark(s@[k])
                }),
        decreases to - i,
    {
        let c = s[i];
        if (dot && c == '.') || (!dot && (c == 'e' || c == 'E')) {
            return i;
        }
        i = i + 1;
    }
    i
}

proof fn lemma_mantissa_chars(m: Seq<char>)
    requires
        is_mantissa(m),
    ensures
        forall|j: int| 0 <= j < m.len() ==> is_digit(#[trigger] m[j]) || m[j] == '.',
{
    if !(m.len() >= 1 && all_digits(m)) {
        let d = choose|d: int|
            0 <= d < m.len() && #[trigger] m[d] == '.' && all_digits(m.take(d)) && all_digits(
                m.skip(d + 1),
            ) && m.len() >= 2;
        assert forall|j: int| 0 <= j < m.len() implies is_digit(#[trigger] m[j]) || m[j] == '.' by {
            if j < d {
                assert(m.take(d)[j] == m[j]);
            } else if j > d {
                assert(m.skip(d + 1)[j - d - 1] == m[j]);
            }
        }
    }
}

/// Whether `s[from..to]` is a mantissa `Digit+ | Digit+ '.' Digit* | Digit* '.' Digit+`.
fn mantissa_in(s: &Vec<char>, from: usize, to: usize) -> (r: bool)
    requires
        from <= to <= s.len(),
    ensures
        r == is_mantissa(s@.subrange(from as int, to as int)),
{
    let ghost m = s@.subrange(from as int, to as int);
    let d = find_char(s, from, to, true);
    if d == to {
        let r = to > from && digits_in(s, from, to);
        proof {
            assert forall|k: int| 0 <= k < m.len() implies #[trigger] m[k] != '.' by {
                assert(m[k] == s@[k + from]);
            }
        }
        r
    } else {
        let a = digits_in(s, from, d);
        let b = digits_in(s, d + 1, to);
        let r = a && b && to - from >= 2;
        proof {
            let dd = d - from;
            assert(m[dd] == '.');
            assert(m.take(dd) =~= s@.subrange(from as int, d as int));
            assert(m.skip(dd + 1) =~= s@.subrange(d + 1, to as int));
            if r {
                assert(is_mantissa(m));
            } else {
                // the dot at `dd` rules out the all-digit form
                assert(!all_digits(m));
                if is_mantissa(m) {
                    let d2 = choose|d2: int|
                        0 <= d2 < m.len() && #[trigger] m[d2] == '.' && all_digits(m.take(d2))
                            && all_digits(m.skip(d2 + 1)) && m.len() >= 2;
                    if d2 < dd {
                        assert(s@[d2 + from] != '.');
                    } else if d2 > dd {
                        assert(m.take(d2)[dd] == '.');
                    }
                }
            }
        }
        r
    }
}

/// Whether `s[from..to]` is `Sign? Digit+`.
fn signed_digits_in(s: &Vec<char>, from: usize, to: usize) -> (r: bool)
    requires
        from <= to <= s.len(),
    ensures
        r == is_signed_digits(s@.subrange(from as int, to as int)),
{
    let ghost t = s@.subrange(from as int, to as int);
    if to > from && (s[from] == '+' || s[from] == '-') {
        let r = to - from >= 2 && digits_in(s, from + 1, to);
        proof {
            assert(t.skip(1) =~= s@.subrange(from + 1, to as int));
            assert(!is_digit(t[0]));
        }
        r
    } else {
        let r = to > from && digits_in(s, from, to);
        r
    }
}

/// Whether `s[from..to]` is `Number` of the float grammar.
fn decimal_number_in(s: &Vec<char>, from: usize, to: usize) -> (r: bool)
    requires
        from <= to <= s.len(),
    ensures
        r == is_decimal_number(s@.subrange(from as int, to as int)),
{
    let ghost t = s@.subrange(from as int, to as int);
    let k = find_char(s, from, to, false);
    if k == to {
        let r = mantissa_in(s, from, to);
        proof {
            assert forall|j: int| 0 <= j < t.len() implies !is_exp_mark(#[trigger] t[j]) by {
                assert(t[j] == s@[j + from]);
            }
        }
        r
    } else {
        let a = mantissa_in(s, from, k);
        let b = signed_digits_in(s, k + 1, to);
        let r = a && b;
        proof {
            let kk = k - from;
            assert(is_exp_mark(t[kk]));
            assert(t.take(kk) =~= s@.subrange(from as int, k as int));
            assert(t.skip(kk + 1) =~= s@.subrange(k + 1, to as int));
            if is_mantissa(t) {
                lemma_mantissa_chars(t);
                assert(is_digit(t[kk]) || t[kk] == '.');
            }
            if !r && is_decimal_number(t) {
                let k2 = choose|k2: int|
                    0 <= k2 < t.len() && is_exp_mark(#[trigger] t[k2]) && is_mantissa(t.take(k2))
                        && is_signed_digits(t.skip(k2 + 1));
                if k2 < kk {
                    assert(t[k2] == s@[k2 + from]);
                } else if k2 > kk {
                    lemma_mantissa_chars(t.take(k2));
                    assert(t.take(k2)[kk] == t[kk]);
                }
            }
        }
        r
    }
}

/// Whether `s[from..to]` spells the word given in lower case `lw` and upper
/// case `uw`, letter by letter in either case.
fn word_in(s: &Vec<char>, from: usize, to: usize, lw: &[char], uw: &[char]) -> (r: bool)
    requires
        from <= to <= s.len(),
        lw@.len() == uw@.len(),
    ensures
        r == eq_ignore_case(s@.subrange(from as int, to as int), lw@, uw@),
{
    let ghost t = s@.subrange(from as int, to as int);
    if to - from != lw.len() {
        return false;
    }
    let mut i: usize = 0;
    while i < lw.len()
        invariant
            from <= to <= s.len(),
            to - from == lw@.len() == uw@.len(),
            i <= lw.len(),
            t == s@.subrange(from as int, to as int),
            forall|j: int| 0 <= j < i ==> (#[trigger] t[j] == lw@[j] || t[j] == uw@[j]),
        decreases lw.len() - i,
    {
        let c = s[from + i];
        assert(t[i as int] == c);
        if c != lw[i] && c != uw[i] {
            return false;
        }
        i = i + 1;
    }
    true
}

/// Whether Rust's float parsing accepts the text `s` (see `is_float_literal`).
pub fn float_literal(s: &Vec<char>) -> (r: bool)
    ensures
        r == is_float_literal(s@),
{
    let n = s.len();
    let signed = n >= 1 && (s[0] == '+' || s[0] == '-');
    let from: usize = if signed { 1 } else { 0 };
    let inf = word_in(s, from, n, &['i', 'n', 'f'], &['I', 'N', 'F']);
    let infinity = word_in(
        s,
        from,
        n,
        &['i', 'n', 'f', 'i', 'n', 'i', 't', 'y'],
        &['I', 'N', 'F', 'I', 'N', 'I', 'T', 'Y'],
    );
    let nan = word_in(s, from, n, &['n', 'a', 'n'], &['N', 'A', 'N']);
    let num = decimal_number_in(s, from, n);
    let r = inf || infinity || nan || num;
    proof {
        let t = s@.subrange(from as int, n as int);
        assert(s@.subrange(0, n as int) =~= s@);
        assert(s@.skip(1) =~= s@.subrange(1, n as int));
        if signed {
            // a leading sign starts none of the unsigned forms
            let u = s@;
            assert(!is_digit(u[0]) && u[0] != '.');
            if is_mantissa(u) {
                lemma_mantissa_chars(u);
            }
            if is_decimal_number(u) && !is_mantissa(u) {
                let k2 = choose|k2: int|
                    0 <= k2 < u.len() && is_exp_mark(#[trigger] u[k2]) && is_mantissa(u.take(k2))
                        && is_signed_digits(u.skip(k2 + 1));
                if k2 > 0 {
                    lemma_mantissa_chars(u.take(k2));
                    assert(u.take(k2)[0] == u[0]);
                }
            }
            assert(!eq_ignore_case(u, seq!['i', 'n', 'f'], seq!['I', 'N', 'F']) || u[0] == 'i');
            assert(!is_unsigned_float(u));
        }
    }
    r
}

} // verus!
