//! The two kinds of number a Howick CSV holds: counts, written as `u32`
//! literals, and millimetre measures, written as floating-point literals.
use vstd::prelude::*;
use crate::text::{all_digits, decimal, digits_value, is_digit, lemma_decimal};

verus! {

// ---------------------------------------------------------------------------
// Floating-point literals, by the grammar that std documents for
// `f64::from_str`:
//
//   Float  ::= Sign? ( 'inf' | 'infinity' | 'nan' | Number )
//   Number ::= ( Digit+ | Digit+ '.' Digit* | Digit* '.' Digit+ ) Exp?
//   Exp    ::= 'e' Sign? Digit+
//   Sign   ::= [+-]
//   Digit  ::= [0-9]
//
// with letters matched regardless of ASCII case. That `f64::from_str` accepts
// exactly these strings is what its documentation says; it is not proved
// here, and the tests compare the two on every short string over the
// grammar's characters.
// ---------------------------------------------------------------------------

pub open spec fn is_sign(c: char) -> bool {
    c == '+' || c == '-'
}

/// `s` with one leading sign removed, if it has one.
pub open spec fn unsigned_part(s: Seq<char>) -> Seq<char> {
    if s.len() > 0 && is_sign(s[0]) {
        s.drop_first()
    } else {
        s
    }
}

/// `c` is the lower-case ASCII letter `lower`, in either case, or equals `lower`.
pub open spec fn same_letter(c: char, lower: char) -> bool {
    c == lower || ('a' <= lower && lower <= 'z' && c as int == lower as int - 32)
}

/// `s` spells `word` (given in lower case) regardless of ASCII case.
pub open spec fn spells(s: Seq<char>, word: Seq<char>) -> bool {
    s.len() == word.len() && forall|i: int| 0 <= i < s.len() ==> same_letter(s[i], word[i])
}

pub open spec fn word_inf() -> Seq<char> {
    seq!['i', 'n', 'f']
}

pub open spec fn word_infinity() -> Seq<char> {
    seq!['i', 'n', 'f', 'i', 'n', 'i', 't', 'y']
}

pub open spec fn word_nan() -> Seq<char> {
    seq!['n', 'a', 'n']
}

/// Digits with at most one decimal point, and at least one digit.
pub open spec fn is_mantissa(m: Seq<char>) -> bool {
    ||| (m.len() >= 1 && all_digits(m))
    ||| (m.len() >= 2 && exists|d: int|
        0 <= d < m.len() && m[d] == '.' && all_digits(m.take(d)) && all_digits(m.skip(d + 1)))
}

/// An optional sign followed by at least one digit.
pub open spec fn is_exponent(x: Seq<char>) -> bool {
    unsigned_part(x).len() >= 1 && all_digits(unsigned_part(x))
}

pub open spec fn is_exponent_mark(c: char) -> bool {
    c == 'e' || c == 'E'
}

/// `Number` of the grammar above.
pub open spec fn is_decimal_number(b: Seq<char>) -> bool {
    ||| is_mantissa(b)
    ||| exists|k: int|
        0 <= k < b.len() && is_exponent_mark(b[k]) && is_mantissa(b.take(k)) && is_exponent(
            b.skip(k + 1),
        )
}

/// `s` is a floating-point literal of the grammar above.
pub open spec fn is_float_literal(s: Seq<char>) -> bool {
    let b = unsigned_part(s);
    ||| spells(b, word_inf())
    ||| spells(b, word_infinity())
    ||| spells(b, word_nan())
    ||| is_decimal_number(b)
}

/// The characters a floating-point literal is made of.
pub open spec fn is_literal_char(c: char) -> bool {
    ||| is_digit(c)
    ||| c == '.'
    ||| is_sign(c)
    ||| ('a' <= c && c <= 'z')
    ||| ('A' <= c && c <= 'Z')
}

/// A floating-point literal is not empty and uses literal characters only.
pub proof fn lemma_float_literal_chars(s: Seq<char>)
    requires
        is_float_literal(s),
    ensures
        s.len() >= 1,
        forall|i: int| 0 <= i < s.len() ==> is_literal_char(#[trigger] s[i]),
{
    let b = unsigned_part(s);
    assert(b.len() >= 1 && forall|i: int| 0 <= i < b.len() ==> is_literal_char(#[trigger] b[i]))
        by {
        if spells(b, word_inf()) || spells(b, word_infinity()) || spells(b, word_nan()) {
            let w = if spells(b, word_inf()) {
                word_inf()
            } else if spells(b, word_infinity()) {
                word_infinity()
            } else {
                word_nan()
            };
            assert(spells(b, w));
            assert(forall|i: int| 0 <= i < w.len() ==> 'a' <= #[trigger] w[i] <= 'z');
            assert forall|i: int| 0 <= i < b.len() implies is_literal_char(#[trigger] b[i]) by {
                assert(same_letter(b[i], w[i]));
            }
        } else if is_mantissa(b) {
            lemma_mantissa_chars(b);
        } else {
            let k = choose|k: int|
                0 <= k < b.len() && is_exponent_mark(b[k]) && is_mantissa(b.take(k))
                    && is_exponent(b.skip(k + 1));
            lemma_mantissa_chars(b.take(k));
            let x = b.skip(k + 1);
            assert forall|i: int| 0 <= i < b.len() implies is_literal_char(#[trigger] b[i]) by {
                if i < k {
                    assert(b.take(k)[i] == b[i]);
                } else if i > k {
                    assert(x[i - k - 1] == b[i]);
                    if x.len() > 0 && is_sign(x[0]) {
                        if i > k + 1 {
                            assert(unsigned_part(x)[i - k - 2] == x[i - k - 1]);
                        }
                    } else {
                        assert(unsigned_part(x)[i - k - 1] == x[i - k - 1]);
                    }
                }
            }
        }
    }
    assert forall|i: int| 0 <= i < s.len() implies is_literal_char(#[trigger] s[i]) by {
        if s.len() > 0 && is_sign(s[0]) {
            if i > 0 {
                assert(b[i - 1] == s[i]);
            }
        } else {
            assert(b[i] == s[i]);
        }
    }
}

// ---------------------------------------------------------------------------
// Unsigned 32-bit literals, as `u32::from_str` accepts them: an optional `+`
// followed by ASCII digits whose value fits in 32 bits.
// ---------------------------------------------------------------------------

/// The value of `s` read as a `u32` literal, if it is one.
pub open spec fn u32_literal(s: Seq<char>) -> Option<u32> {
    let d = if s.len() > 0 && s[0] == '+' {
        s.drop_first()
    } else {
        s
    };
    if d.len() >= 1 && all_digits(d) && digits_value(d) <= u32::MAX {
        Some(digits_value(d) as u32)
    } else {
        None
    }
}

/// The decimal text of a `u32` reads back as that `u32`.
pub proof fn lemma_u32_literal_decimal(n: u32)
    ensures
        u32_literal(decimal(n as nat)) == Some(n),
{
    lemma_decimal(n as nat);
    assert(is_digit(decimal(n as nat)[0]));
}

/// What `str::parse::<u32>` gives for a text, error included; the same text
/// always gives the same result.
pub uninterp spec fn u32_parse_result(s: Seq<char>) -> Result<u32, core::num::ParseIntError>;

/// Parses `s` with `str::parse::<u32>`. Its documentation: an optional `+` sign
/// followed by digits only; an empty string, any other character, or a value
/// above `u32::MAX` is an error. The result, and so the `ParseIntError` of a
/// failure, is `u32_parse_result(s@)`; which kind that error reports is not
/// stated here.
#[verifier::external_body]
pub(crate) fn std_parse_u32(s: &str) -> (r: Result<u32, core::num::ParseIntError>)
    ensures
        r == u32_parse_result(s@),
        match r {
            Ok(n) => u32_literal(s@) == Some(n),
            Err(_) => u32_literal(s@) is None,
        },
{
    s.parse::<u32>()
}

// ---------------------------------------------------------------------------
// Executable recognisers.
// ---------------------------------------------------------------------------

/// Whether `v[from..to]` is made of ASCII digits only.
pub fn digits_only(v: &Vec<char>, from: usize, to: usize) -> (b: bool)
    requires
        from <= to <= v.len(),
    ensures
        b == all_digits(v@.subrange(from as int, to as int)),
{
    let mut i = from;
    while i < to
        invariant
            from <= i <= to <= v.len(),
            forall|j: int| from <= j < i ==> is_digit(v@[j]),
        decreases to - i,
    {
        if !('0' <= v[i] && v[i] <= '9') {
            assert(!is_digit(v@.subrange(from as int, to as int)[i - from]));
            return false;
        }
        i = i + 1;
    }
    assert forall|j: int| 0 <= j < to - from implies is_digit(
        #[trigger] v@.subrange(from as int, to as int)[j],
    ) by {
        assert(v@.subrange(from as int, to as int)[j] == v@[from + j]);
    }
    true
}

/// The first index in `from..to` whose character is `c`, or `to`.
fn find_char(v: &Vec<char>, from: usize, to: usize, c: char) -> (k: usize)
    requires
        from <= to <= v.len(),
    ensures
        from <= k <= to,
        k < to ==> v@[k as int] == c,
        forall|j: int| from <= j < k ==> v@[j] != c,
{
    let mut i = from;
    while i < to
        invariant
            from <= i <= to <= v.len(),
            forall|j: int| from <= j < i ==> v@[j] != c,
        decreases to - i,
    {
        if v[i] == c {
            return i;
        }
        i = i + 1;
    }
    to
}

/// The first index in `from..to` holding `e` or `E`, or `to`.
fn find_exponent_mark(v: &Vec<char>, from: usize, to: usize) -> (k: usize)
    requires
        from <= to <= v.len(),
    ensures
        from <= k <= to,
        k < to ==> is_exponent_mark(v@[k as int]),
        forall|j: int| from <= j < k ==> !is_exponent_mark(v@[j]),
{
    let mut i = from;
    while i < to
        invariant
            from <= i <= to <= v.len(),
            forall|j: int| from <= j < i ==> !is_exponent_mark(v@[j]),
        decreases to - i,
    {
        if v[i] == 'e' || v[i] == 'E' {
            return i;
        }
        i = i + 1;
    }
    to
}

/// Every character of a mantissa is a digit or the decimal point.
proof fn lemma_mantissa_chars(m: Seq<char>)
    requires
        is_mantissa(m),
    ensures
        forall|i: int| 0 <= i < m.len() ==> is_digit(#[trigger] m[i]) || m[i] == '.',
{
    if !(m.len() >= 1 && all_digits(m)) {
        let d = choose|d: int|
            0 <= d < m.len() && m[d] == '.' && all_digits(m.take(d)) && all_digits(
                m.skip(d + 1),
            );
        assert forall|i: int| 0 <= i < m.len() implies is_digit(#[trigger] m[i]) || m[i]
            == '.' by {
            if i < d {
                assert(m.take(d)[i] == m[i]);
            } else if i > d {
                assert(m.skip(d + 1)[i - d - 1] == m[i]);
            }
        }
    }
}

/// Whether `v[from..to]` is a mantissa.
fn mantissa_at(v: &Vec<char>, from: usize, to: usize) -> (b: bool)
    requires
        from <= to <= v.len(),
    ensures
        b == is_mantissa(v@.subrange(from as int, to as int)),
{
    let ghost m = v@.subrange(from as int, to as int);
    let d = find_char(v, from, to, '.');
    if d == to {
        let r = to - from >= 1 && digits_only(v, from, to);
        proof {
            if !r {
                if m.len() >= 2 {
                    assert forall|e: int|
                        0 <= e < m.len() && #[trigger] m[e] == '.' implies false by {
                        assert(m[e] == v@[from + e]);
                    }
                }
            }
        }
        r
    } else {
        let r = to - from >= 2 && digits_only(v, from, d) && digits_only(v, d + 1, to);
        proof {
            let k = d - from;
            assert(m[k] == '.');
            assert(m.take(k) =~= v@.subrange(from as int, d as int));
            assert(m.skip(k + 1) =~= v@.subrange(d + 1, to as int));
            assert(!all_digits(m)) by {
                assert(!is_digit(m[k]));
            }
            if r {
                assert(0 <= k < m.len() && m[k] == '.' && all_digits(m.take(k)) && all_digits(
                    m.skip(k + 1),
                ));
            } else if m.len() >= 2 {
                assert forall|e: int|
                    0 <= e < m.len() && m[e] == '.' && all_digits(m.take(e)) && all_digits(
                        m.skip(e + 1),
                    ) implies false by {
                    if e < k {
                        assert(m[e] == v@[from + e]);
                    } else if e > k {
                        assert(m.take(e)[k] == m[k]);
                    }
                }
            }
        }
        r
    }
}

/// Whether `v[from..to]` is an exponent's digits, with an optional sign.
fn exponent_at(v: &Vec<char>, from: usize, to: usize) -> (b: bool)
    requires
        from <= to <= v.len(),
    ensures
        b == is_exponent(v@.subrange(from as int, to as int)),
{
    let ghost x = v@.subrange(from as int, to as int);
    if from < to && (v[from] == '+' || v[from] == '-') {
        assert(unsigned_part(x) =~= v@.subrange(from + 1, to as int));
        to - (from + 1) >= 1 && digits_only(v, from + 1, to)
    } else {
        assert(unsigned_part(x) =~= x);
        to - from >= 1 && digits_only(v, from, to)
    }
}

/// Whether `v[from..to]` is a `Number` of the grammar.
fn decimal_number_at(v: &Vec<char>, from: usize, to: usize) -> (b: bool)
    requires
        from <= to <= v.len(),
    ensures
        b == is_decimal_number(v@.subrange(from as int, to as int)),
{
    let ghost s = v@.subrange(from as int, to as int);
    let k = find_exponent_mark(v, from, to);
    if k == to {
        let r = mantissa_at(v, from, to);
        proof {
            if !r {
                assert forall|e: int| 0 <= e < s.len() && #[trigger] is_exponent_mark(s[e]) implies false by {
                    assert(s[e] == v@[from + e]);
                }
            }
        }
        r
    } else {
        let r = mantissa_at(v, from, k) && exponent_at(v, k + 1, to);
        proof {
            let i = k - from;
            assert(s.take(i) =~= v@.subrange(from as int, k as int));
            assert(s.skip(i + 1) =~= v@.subrange(k + 1, to as int));
            assert(is_exponent_mark(s[i]));
            if is_mantissa(s) {
                lemma_mantissa_chars(s);
                assert(false);
            }
            if !r {
                assert forall|e: int|
                    0 <= e < s.len() && is_exponent_mark(s[e]) && is_mantissa(s.take(e))
                        && is_exponent(s.skip(e + 1)) implies false by {
                    if e < i {
                        assert(s[e] == v@[from + e]);
                    } else if e > i {
                        lemma_mantissa_chars(s.take(e));
                        assert(s.take(e)[i] == s[i]);
                    }
                }
            }
        }
        r
    }
}

/// Whether `v[from..]` spells `word` regardless of ASCII case.
fn spells_at(v: &Vec<char>, from: usize, word: &Vec<char>) -> (b: bool)
    requires
        from <= v.len(),
        forall|i: int| 0 <= i < word.len() ==> 'a' <= #[trigger] word@[i] <= 'z',
    ensures
        b == spells(v@.subrange(from as int, v.len() as int), word@),
{
    let ghost s = v@.subrange(from as int, v.len() as int);
    if v.len() - from != word.len() {
        return false;
    }
    let mut i: usize = 0;
    while i < word.len()
        invariant
            v.len() - from == word.len(),
            from <= v.len(),
            s == v@.subrange(from as int, v.len() as int),
            i <= word.len(),
            forall|j: int| 0 <= j < word.len() ==> 'a' <= #[trigger] word@[j] <= 'z',
            forall|j: int| 0 <= j < i ==> same_letter(#[trigger] s[j], word@[j]),
        decreases word.len() - i,
    {
        let c = v[from + i];
        let l = word[i];
        assert(s[i as int] == c);
        assert('a' <= l <= 'z');
        let upper = (l as u8 - 32) as char;
        assert(upper as int == l as int - 32);
        if !(c == l || c == upper) {
            return false;
        }
        assert(same_letter(s[i as int], word@[i as int]));
        i = i + 1;
    }
    true
}

/// Whether the characters of `v` form a floating-point literal of the grammar above.
pub fn float_literal_chars(v: &Vec<char>) -> (b: bool)
    ensures
        b == is_float_literal(v@),
{
    let start: usize = if v.len() > 0 && (v[0] == '+' || v[0] == '-') {
        1
    } else {
        0
    };
    assert(unsigned_part(v@) =~= v@.subrange(start as int, v.len() as int));
    let mut inf: Vec<char> = Vec::new();
    inf.push('i');
    inf.push('n');
    inf.push('f');
    assert(inf@ =~= word_inf());
    let mut infinity: Vec<char> = Vec::new();
    infinity.push('i');
    infinity.push('n');
    infinity.push('f');
    infinity.push('i');
    infinity.push('n');
    infinity.push('i');
    infinity.push('t');
    infinity.push('y');
    assert(infinity@ =~= word_infinity());
    let mut nan: Vec<char> = Vec::new();
    nan.push('n');
    nan.push('a');
    nan.push('n');
    assert(nan@ =~= word_nan());
    spells_at(v, start, &inf) || spells_at(v, start, &infinity) || spells_at(v, start, &nan)
        || decimal_number_at(v, start, v.len())
}

} // verus!
