//! A 32-bit float constant held as plain values: its IEEE-754 bit pattern,
//! which the checks read, and its shortest decimal text (what `{}` prints for
//! it), which the code generator writes.
use vstd::prelude::*;
use vstd::string::*;
use crate::text::str_has_char;

verus! {

#[derive(Clone, Debug, PartialEq)]
pub struct Scalar {
    /// IEEE-754 binary32 bit pattern.
    pub bits: u32,
    /// Shortest decimal text of the value, as Rust's `Display` writes it.
    pub text: String,
}

/// The exponent field of a binary32 pattern.
pub open spec fn exponent_field(bits: u32) -> int {
    (bits as int / 0x80_0000) % 0x100
}

/// A binary32 pattern is finite unless its exponent field is all ones.
pub open spec fn is_finite_bits(bits: u32) -> bool {
    exponent_field(bits) != 0xff
}

/// The pattern of the absolute value: the sign bit cleared.
pub open spec fn magnitude_bits(bits: u32) -> int {
    bits as int % 0x8000_0000
}

/// The pattern of 1_000_000.0.
pub open spec fn million_bits() -> int {
    0x4974_2400
}

/// Finite and at most one million in absolute value. For non-negative finite
/// patterns the order of patterns is the order of values.
pub open spec fn within_million(bits: u32) -> bool {
    is_finite_bits(bits) && magnitude_bits(bits) <= million_bits()
}

pub open spec fn is_digit(c: char) -> bool {
    '0' <= c && c <= '9'
}

/// Digits with at most one point between them: `12`, `0.5`, `3.25`.
pub open spec fn is_unsigned_decimal(t: Seq<char>) -> bool {
    &&& t.len() > 0
    &&& is_digit(t[0])
    &&& is_digit(t[t.len() - 1])
    &&& forall|i: int| 0 <= i < t.len() ==> is_digit(#[trigger] t[i]) || t[i] == '.'
    &&& forall|i: int, j: int| #![trigger t[i], t[j]] 0 <= i < j < t.len() && t[i] == '.' ==> t[j] != '.'
}

/// The text `{}` prints for a finite `f32`: an optional minus sign, then
/// digits with at most one point between them (no exponent, no letters).
pub open spec fn is_decimal_text(t: Seq<char>) -> bool {
    if t.len() > 0 && t[0] == '-' {
        is_unsigned_decimal(t.skip(1))
    } else {
        is_unsigned_decimal(t)
    }
}

/// A constant the checks accept: a finite pattern with a decimal text.
pub open spec fn constant_ok(n: Scalar) -> bool {
    is_finite_bits(n.bits) && is_decimal_text(n.text@)
}

fn char_is_digit(c: char) -> (r: bool)
    ensures
        r == is_digit(c),
{
    '0' <= c && c <= '9'
}

/// Whether `s` is a decimal text.
pub fn str_is_decimal_text(s: &str) -> (r: bool)
    ensures
        r == is_decimal_text(s@),
{
    let n = s.unicode_len();
    let start: usize = if n > 0 && s.get_char(0) == '-' { 1 } else { 0 };
    let ghost t = if s@.len() > 0 && s@[0] == '-' { s@.skip(1) } else { s@ };
    assert(t =~= s@.skip(start as int));
    if start >= n {
        return false;
    }
    if !char_is_digit(s.get_char(start)) || !char_is_digit(s.get_char(n - 1)) {
        assert(t[0] == s@[start as int] && t[t.len() - 1] == s@[n - 1]);
        return false;
    }
    let mut seen_point = false;
    let mut i: usize = start;
    while i < n
        invariant
            start < n,
            n == s@.len(),
            start <= i <= n,
            t == s@.skip(start as int),
            is_decimal_text(s@) == is_unsigned_decimal(t),
            forall|k: int| start <= k < i ==> is_digit(#[trigger] s@[k]) || s@[k] == '.',
            forall|a: int, b: int| #![trigger s@[a], s@[b]] start <= a < b < i && s@[a] == '.' ==> s@[b] != '.',
            seen_point <==> exists|k: int| start <= k < i && #[trigger] s@[k] == '.',
        decreases n - i,
    {
        let c = s.get_char(i);
        if c == '.' {
            if seen_point {
                proof {
                    let k = choose|k: int| start <= k < i && #[trigger] s@[k] == '.';
                    assert(t[k - start] == s@[k] && t[i - start] == s@[i as int]);
                    assert(t[k - start] == '.' && t[i - start] == '.');
                }
                return false;
            }
            seen_point = true;
        } else if !char_is_digit(c) {
            assert(t[i - start] == s@[i as int]);
            assert(!is_digit(t[i - start]) && t[i - start] != '.');
            return false;
        }
        i = i + 1;
    }
    proof {
        assert forall|x: int| 0 <= x < t.len() implies is_digit(#[trigger] t[x]) || t[x] == '.' by {
            assert(t[x] == s@[x + start]);
        }
        assert forall|x: int, y: int| #![trigger t[x], t[y]] 0 <= x < y < t.len() && t[x] == '.' implies t[y] != '.' by {
            assert(t[x] == s@[x + start] && t[y] == s@[y + start]);
        }
        assert(t[0] == s@[start as int] && t[t.len() - 1] == s@[n - 1]);
    }
    true
}

/// A decimal text has a point once the WGSL form adds `.0` to a bare integer.
pub proof fn lemma_wgsl_float_text(t: Seq<char>)
    requires
        is_decimal_text(t),
    ensures
        is_decimal_text(wgsl_float_text(t)),
        wgsl_float_text(t).contains('.'),
{
    reveal_strlit(".0");
    let body = if t.len() > 0 && t[0] == '-' { t.skip(1) } else { t };
    if !t.contains('.') && !t.contains('e') {
        let w = t + ".0"@;
        let wb = if w.len() > 0 && w[0] == '-' { w.skip(1) } else { w };
        assert(wb =~= body + ".0"@) by {
            if t.len() > 0 && t[0] == '-' {
                assert(w[0] == t[0]);
            } else {
                assert(w[0] == t[0]);
            }
        }
        assert forall|x: int| 0 <= x < body.len() implies #[trigger] body[x] != '.' by {
            if t.len() > 0 && t[0] == '-' {
                assert(body[x] == t[x + 1]);
            } else {
                assert(body[x] == t[x]);
            }
        }
        assert forall|x: int| 0 <= x < wb.len() implies is_digit(#[trigger] wb[x]) || wb[x] == '.' by {
            if x >= body.len() {
                assert(wb[x] == ".0"@[x - body.len()]);
            } else {
                assert(wb[x] == body[x]);
            }
        }
        assert forall|x: int, y: int| #![trigger wb[x], wb[y]] 0 <= x < y < wb.len() && wb[x] == '.' implies wb[y] != '.' by {
            assert(x == body.len()) by {
                if x < body.len() {
                    assert(wb[x] == body[x]);
                }
            }
            assert(wb[y] == ".0"@[y - body.len()]);
        }
        assert(wb[0] == body[0]);
        assert(wb[wb.len() - 1] == '0');
        assert(w[t.len() as int] == '.');
    } else {
        assert(!t.contains('e')) by {
            if t.contains('e') {
                let x = choose|x: int| 0 <= x < t.len() && t[x] == 'e';
                if t.len() > 0 && t[0] == '-' {
                    assert(x > 0);
                    assert(body[x - 1] == t[x]);
                } else {
                    assert(body[x] == t[x]);
                }
            }
        }
    }
}

/// A binary32 pattern is finite exactly when its exponent bits are not all
/// ones, whatever its sign and mantissa.
pub proof fn lemma_finite_by_exponent_bits(bits: u32)
    ensures
        is_finite_bits(bits) <==> (bits & 0x7f80_0000u32) != 0x7f80_0000u32,
        is_finite_bits(bits) == is_finite_bits(bits ^ 0x8000_0000u32),
{
    let e: u32 = (bits / 0x80_0000u32) % 0x100u32;
    assert(exponent_field(bits) == e as int);
    let f: u32 = ((bits ^ 0x8000_0000u32) / 0x80_0000u32) % 0x100u32;
    assert(exponent_field(bits ^ 0x8000_0000u32) == f as int);
    assert((e != 0xffu32) == ((bits & 0x7f80_0000u32) != 0x7f80_0000u32)) by (bit_vector)
        requires
            e == (bits / 0x80_0000u32) % 0x100u32,
    ;
    assert(e == f) by (bit_vector)
        requires
            e == (bits / 0x80_0000u32) % 0x100u32,
            f == ((bits ^ 0x8000_0000u32) / 0x80_0000u32) % 0x100u32,
    ;
}

/// A minus sign in front of a decimal text keeps it a decimal text, and a
/// text that is not one does not become one: negative constants are as
/// acceptable as positive ones.
pub proof fn lemma_decimal_text_sign(t: Seq<char>)
    requires
        t.len() > 0,
        t[0] != '-',
    ensures
        is_decimal_text(seq!['-'] + t) == is_decimal_text(t),
{
    let n = seq!['-'] + t;
    assert(n[0] == '-');
    assert(n.skip(1) =~= t);
}

/// The WGSL float literal for a decimal text: a bare integer gets `.0`.
pub open spec fn wgsl_float_text(text: Seq<char>) -> Seq<char> {
    if !text.contains('.') && !text.contains('e') {
        text + ".0"@
    } else {
        text
    }
}

impl Scalar {
    pub open spec fn finite(&self) -> bool {
        is_finite_bits(self.bits)
    }

    pub fn new(bits: u32, text: String) -> (r: Scalar)
        ensures
            r.bits == bits,
            r.text@ == text@,
    {
        Scalar { bits, text }
    }

    /// 0.0
    pub fn zero() -> (r: Scalar)
        ensures
            r.bits == 0,
            r.text@ == "0"@,
    {
        Scalar { bits: 0, text: String::from_str("0") }
    }

    /// 0.5
    pub fn half() -> (r: Scalar)
        ensures
            r.bits == 0x3f00_0000,
            r.text@ == "0.5"@,
    {
        Scalar { bits: 0x3f00_0000, text: String::from_str("0.5") }
    }

    /// 1.0
    pub fn one() -> (r: Scalar)
        ensures
            r.bits == 0x3f80_0000,
            r.text@ == "1"@,
    {
        Scalar { bits: 0x3f80_0000, text: String::from_str("1") }
    }

    pub fn copy(&self) -> (r: Scalar)
        ensures
            r.bits == self.bits,
            r.text@ == self.text@,
    {
        Scalar { bits: self.bits, text: self.text.clone() }
    }

    /// Finite, with a decimal text.
    pub fn is_constant_ok(&self) -> (r: bool)
        ensures
            r == constant_ok(*self),
    {
        self.is_finite() && str_is_decimal_text(self.text.as_str())
    }

    pub fn is_finite(&self) -> (r: bool)
        ensures
            r == is_finite_bits(self.bits),
    {
        (self.bits / 0x80_0000) % 0x100 != 0xff
    }

    /// `is_finite() && abs() <= 1_000_000.0`
    pub fn is_within_million(&self) -> (r: bool)
        ensures
            r == within_million(self.bits),
    {
        self.is_finite() && self.bits % 0x8000_0000 <= 0x4974_2400
    }

    /// The value as a WGSL float literal.
    pub fn wgsl(&self) -> (r: String)
        ensures
            r@ == wgsl_float_text(self.text@),
    {
        let t = self.text.as_str();
        let mut r = self.text.clone();
        if !str_has_char(t, '.') && !str_has_char(t, 'e') {
            r.append(".0");
        }
        r
    }
}

} // verus!
