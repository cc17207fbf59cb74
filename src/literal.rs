//! The two kinds of numeric token the geometry format knows: floating-point
//! literals (kept as the text that denotes them) and unsigned 16-bit face
//! indices.

use vstd::prelude::*;

verus! {

pub open spec fn is_digit(b: u8) -> bool {
    48 <= b && b <= 57
}

pub open spec fn all_digits(s: Seq<u8>) -> bool {
    forall|i: int| 0 <= i < s.len() ==> is_digit(#[trigger] s[i])
}

/// The numeric value of a run of decimal digits, most significant first.
pub open spec fn digits_value(s: Seq<u8>) -> nat
    decreases s.len(),
{
    if s.len() == 0 {
        0
    } else {
        digits_value(s.drop_last()) * 10 + (s.last() - 48) as nat
    }
}

/// The face index that a token denotes: an optional `+` followed by at least
/// one decimal digit, of value at most 65535.
pub open spec fn index_value(s: Seq<u8>) -> Option<u16> {
    let d = if s.len() > 0 && s[0] == 43 { s.skip(1) } else { s };
    if d.len() > 0 && all_digits(d) && digits_value(d) <= 65535 {
        Some(digits_value(d) as u16)
    } else {
        None
    }
}

proof fn lemma_value_prefix_le(s: Seq<u8>, i: int)
    requires
        0 <= i <= s.len(),
    ensures
        digits_value(s.take(i)) <= digits_value(s),
    decreases s.len(),
{
    if i < s.len() {
        assert(s.drop_last().take(i) =~= s.take(i));
        lemma_value_prefix_le(s.drop_last(), i);
    } else {
        assert(s.take(i) =~= s);
    }
}

/// Reads a face index from a token; `None` where the token is no index.
pub fn parse_index(s: &[u8]) -> (r: Option<u16>)
    ensures
        r == index_value(s@),
{
    let start: usize = if s.len() > 0 && s[0] == 43 { 1 } else { 0 };
    let ghost d = if s@.len() > 0 && s@[0] == 43 { s@.skip(1) } else { s@ };
    assert(d =~= s@.subrange(start as int, s@.len() as int));
    if start >= s.len() {
        return None;
    }
    let mut acc: u32 = 0;
    let mut i: usize = start;
    while i < s.len()
        invariant
            start <= i <= s.len(),
            d =~= s@.subrange(start as int, s@.len() as int),
            d == (if s@.len() > 0 && s@[0] == 43 { s@.skip(1) } else { s@ }),
            all_digits(d.take(i - start)),
            acc as nat == digits_value(d.take(i - start)),
            acc <= 65535,
        decreases s.len() - i,
    {
        let b = s[i];
        if b < 48 || b > 57 {
            assert(!is_digit(d[i - start]));
            assert(!all_digits(d));
            return None;
        }
        let ghost k = i - start;
        assert(d.take(k + 1).drop_last() =~= d.take(k));
        acc = acc * 10 + (b - 48) as u32;
        i = i + 1;
        assert(all_digits(d.take(i - start))) by {
            assert forall|j: int| 0 <= j < d.take(k + 1).len() implies is_digit(
                #[trigger] d.take(k + 1)[j],
            ) by {
                if j < k {
                    assert(d.take(k + 1)[j] == d.take(k)[j]);
                }
            }
        }
        if acc > 65535 {
            proof {
                lemma_value_prefix_le(d, k + 1);
            }
            assert(digits_value(d) > 65535);
            return None;
        }
    }
    assert(d.take(i - start) =~= d);
    Some(acc as u16)
}

/// The shortest decimal text of a number.
pub open spec fn decimal_text(n: nat) -> Seq<u8>
    decreases n,
{
    if n < 10 {
        seq![(48 + n) as u8]
    } else {
        decimal_text(n / 10).push((48 + n % 10) as u8)
    }
}

pub proof fn lemma_decimal_text(n: nat)
    ensures
        decimal_text(n).len() > 0,
        all_digits(decimal_text(n)),
        digits_value(decimal_text(n)) == n,
        decimal_text(n)[0] != 43,
    decreases n,
{
    if n >= 10 {
        lemma_decimal_text(n / 10);
        let t = decimal_text(n);
        assert(t.drop_last() =~= decimal_text(n / 10));
        assert(all_digits(t)) by {
            assert forall|i: int| 0 <= i < t.len() implies is_digit(#[trigger] t[i]) by {
                if i < t.len() - 1 {
                    assert(t[i] == decimal_text(n / 10)[i]);
                }
            }
        }
    } else {
        assert(digits_value(decimal_text(n).drop_last()) == 0);
    }
}

/// A face index read back from its own decimal text gives the index again.
pub proof fn lemma_index_text(n: u16)
    ensures
        index_value(decimal_text(n as nat)) == Some(n),
{
    lemma_decimal_text(n as nat);
}

fn push_decimal(n: u32, out: &mut Vec<u8>)
    ensures
        final(out)@ == old(out)@ + decimal_text(n as nat),
    decreases n,
{
    if n >= 10 {
        push_decimal(n / 10, out);
    }
    out.push((48 + n % 10) as u8);
    proof {
        if n < 10 {
            assert(decimal_text(n as nat) =~= seq![(48 + n) as u8]);
        }
    }
    assert(final(out)@ =~= old(out)@ + decimal_text(n as nat));
}

/// Appends the decimal text of a face index.
pub fn write_index(n: u16, out: &mut Vec<u8>)
    ensures
        final(out)@ == old(out)@ + decimal_text(n as nat),
{
    push_decimal(n as u32, out);
}

pub open spec fn is_sign(b: u8) -> bool {
    b == 43 || b == 45
}

/// ASCII lower case of one byte.
pub open spec fn lower(b: u8) -> u8 {
    if 65 <= b && b <= 90 {
        (b + 32) as u8
    } else {
        b
    }
}

pub open spec fn lowered(s: Seq<u8>) -> Seq<u8> {
    s.map_values(|b: u8| lower(b))
}

/// `Digit+ | Digit+ '.' Digit* | Digit* '.' Digit+`: digits with at most one
/// decimal point, and at least one digit.
pub open spec fn is_mantissa(m: Seq<u8>) -> bool {
    &&& forall|i: int| 0 <= i < m.len() ==> is_digit(#[trigger] m[i]) || m[i] == 46
    &&& forall|i: int, j: int| 0 <= i < j < m.len() && #[trigger] m[i] == 46 ==> #[trigger] m[j] != 46
    &&& exists|i: int| 0 <= i < m.len() && is_digit(#[trigger] m[i])
}

/// `Sign? Digit+`
pub open spec fn is_exponent(e: Seq<u8>) -> bool {
    let d = if e.len() > 0 && is_sign(e[0]) { e.skip(1) } else { e };
    d.len() > 0 && all_digits(d)
}

/// `Mantissa ('e' Exponent)?`
pub open spec fn is_decimal_number(u: Seq<u8>) -> bool {
    ||| is_mantissa(u)
    ||| exists|k: int|
        0 <= k < u.len() && #[trigger] u[k] == 101 && is_mantissa(u.take(k)) && is_exponent(
            u.skip(k + 1),
        )
}

pub open spec fn word_inf() -> Seq<u8> {
    seq![105u8, 110, 102]
}

pub open spec fn word_infinity() -> Seq<u8> {
    seq![105u8, 110, 102, 105, 110, 105, 116, 121]
}

pub open spec fn word_nan() -> Seq<u8> {
    seq![110u8, 97, 110]
}

/// The text of a floating-point literal: once lowered, an optional sign and
/// then `inf`, `infinity`, `nan`, or a decimal number with an optional
/// exponent. No whitespace anywhere.
pub open spec fn is_float_literal(s: Seq<u8>) -> bool {
    let t = lowered(s);
    let u = if t.len() > 0 && is_sign(t[0]) { t.skip(1) } else { t };
    ||| u == word_inf()
    ||| u == word_infinity()
    ||| u == word_nan()
    ||| is_decimal_number(u)
}

fn lower_byte(b: u8) -> (r: u8)
    ensures
        r == lower(b),
{
    if 65 <= b && b <= 90 {
        b + 32
    } else {
        b
    }
}

fn range_is_mantissa(v: &Vec<u8>, lo: usize, hi: usize) -> (r: bool)
    requires
        lo <= hi <= v.len(),
    ensures
        r == is_mantissa(v@.subrange(lo as int, hi as int)),
{
    let ghost m = v@.subrange(lo as int, hi as int);
    let mut i: usize = lo;
    let mut dot: Option<usize> = None;
    let mut digit: Option<usize> = None;
    while i < hi
        invariant
            lo <= i <= hi <= v.len(),
            m == v@.subrange(lo as int, hi as int),
            forall|j: int| 0 <= j < i - lo ==> is_digit(#[trigger] m[j]) || m[j] == 46,
            forall|j1: int, j2: int|
                0 <= j1 < j2 < i - lo && #[trigger] m[j1] == 46 ==> #[trigger] m[j2] != 46,
            match dot {
                Some(d) => lo <= d < i && m[d - lo] == 46,
                None => forall|j: int| 0 <= j < i - lo ==> #[trigger] m[j] != 46,
            },
            match digit {
                Some(d) => lo <= d < i && is_digit(m[d - lo]),
                None => forall|j: int| 0 <= j < i - lo ==> !is_digit(#[trigger] m[j]),
            },
        decreases hi - i,
    {
        let b = v[i];
        assert(m[i - lo] == b);
        if b == 46 {
            match dot {
                Some(d) => {
                    assert(m[d - lo] == 46 && m[i - lo] == 46);
                    return false;
                },
                None => {
                    dot = Some(i);
                },
            }
        } else if 48 <= b && b <= 57 {
            digit = Some(i);
        } else {
            assert(!(is_digit(m[i - lo]) || m[i - lo] == 46));
            return false;
        }
        i = i + 1;
    }
    match digit {
        Some(d) => {
            assert(is_digit(m[d - lo]));
            true
        },
        None => false,
    }
}

fn range_is_exponent(v: &Vec<u8>, lo: usize, hi: usize) -> (r: bool)
    requires
        lo <= hi <= v.len(),
    ensures
        r == is_exponent(v@.subrange(lo as int, hi as int)),
{
    let ghost e = v@.subrange(lo as int, hi as int);
    let start: usize = if lo < hi && (v[lo] == 43 || v[lo] == 45) { lo + 1 } else { lo };
    let ghost d = if e.len() > 0 && is_sign(e[0]) { e.skip(1) } else { e };
    assert(d =~= v@.subrange(start as int, hi as int));
    if start >= hi {
        return false;
    }
    let mut i: usize = start;
    while i < hi
        invariant
            start <= i <= hi <= v.len(),
            d == v@.subrange(start as int, hi as int),
            e == v@.subrange(lo as int, hi as int),
            d == (if e.len() > 0 && is_sign(e[0]) { e.skip(1) } else { e }),
            forall|j: int| 0 <= j < i - start ==> is_digit(#[trigger] d[j]),
        decreases hi - i,
    {
        if v[i] < 48 || v[i] > 57 {
            assert(!is_digit(d[i - start]));
            return false;
        }
        i = i + 1;
    }
    true
}

fn range_equals(v: &Vec<u8>, lo: usize, w: &Vec<u8>) -> (r: bool)
    requires
        lo <= v.len(),
    ensures
        r == (v@.subrange(lo as int, v.len() as int) == w@),
{
    let ghost u = v@.subrange(lo as int, v.len() as int);
    if v.len() - lo != w.len() {
        return false;
    }
    let mut i: usize = 0;
    while i < w.len()
        invariant
            lo + w.len() == v.len(),
            u == v@.subrange(lo as int, v.len() as int),
            i <= w.len(),
            forall|j: int| 0 <= j < i ==> u[j] == w@[j],
        decreases w.len() - i,
    {
        if v[lo + i] != w[i] {
            assert(u[i as int] != w@[i as int]);
            return false;
        }
        i = i + 1;
    }
    assert(u =~= w@);
    true
}

/// Tells whether a token is the text of a floating-point literal.
pub fn is_float_text(s: &[u8]) -> (r: bool)
    ensures
        r == is_float_literal(s@),
{
    let mut t: Vec<u8> = Vec::new();
    let mut i: usize = 0;
    while i < s.len()
        invariant
            i <= s.len(),
            t@ =~= lowered(s@.take(i as int)),
        decreases s.len() - i,
    {
        t.push(lower_byte(s[i]));
        i = i + 1;
        assert(t@ =~= lowered(s@.take(i as int)));
    }
    assert(s@.take(i as int) =~= s@);
    let lo: usize = if t.len() > 0 && (t[0] == 43 || t[0] == 45) { 1 } else { 0 };
    let ghost u = if t@.len() > 0 && is_sign(t@[0]) { t@.skip(1) } else { t@ };
    assert(u =~= t@.subrange(lo as int, t.len() as int));
    let inf = vec![105u8, 110, 102];
    let infinity = vec![105u8, 110, 102, 105, 110, 105, 116, 121];
    let nan = vec![110u8, 97, 110];
    assert(inf@ =~= word_inf());
    assert(infinity@ =~= word_infinity());
    assert(nan@ =~= word_nan());
    if range_equals(&t, lo, &inf) || range_equals(&t, lo, &infinity) || range_equals(
        &t,
        lo,
        &nan,
    ) {
        return true;
    }
    let mut k: usize = lo;
    while k < t.len() && t[k] != 101
        invariant
            lo <= k <= t.len(),
            u == t@.subrange(lo as int, t.len() as int),
            forall|j: int| 0 <= j < k - lo ==> #[trigger] u[j] != 101,
        decreases t.len() - k,
    {
        k = k + 1;
    }
    if k == t.len() {
        assert(!(exists|k: int|
            0 <= k < u.len() && #[trigger] u[k] == 101 && is_mantissa(u.take(k))
                && is_exponent(u.skip(k + 1))));
        return range_is_mantissa(&t, lo, t.len());
    }
    let ghost e = (k - lo) as int;
    assert(u[e] == 101);
    assert(u.take(e) =~= t@.subrange(lo as int, k as int));
    assert(u.skip(e + 1) =~= t@.subrange(k + 1, t.len() as int));
    let r = range_is_mantissa(&t, lo, k) && range_is_exponent(&t, k + 1, t.len());
    assert(!is_mantissa(u)) by {
        assert(!(is_digit(u[e]) || u[e] == 46));
    }
    assert(r == is_decimal_number(u)) by {
        if !r {
            assert forall|k2: int|
                0 <= k2 < u.len() && #[trigger] u[k2] == 101 && is_mantissa(
                    u.take(k2),
                ) implies !is_exponent(u.skip(k2 + 1)) by {
                if k2 > e {
                    assert(u.take(k2)[e] == 101);
                    assert(!(is_digit(u.take(k2)[e]) || u.take(k2)[e] == 46));
                }
            }
        }
    }
    r
}

} // verus!
