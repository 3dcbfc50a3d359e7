//! Arguments handed to a template and how each one is written out.

use vstd::prelude::*;
use vstd::arithmetic::power2::{lemma2_to64, lemma2_to64_rest, lemma_pow2_strictly_increases, pow2};
use vstd::bits::{lemma_u64_shl_is_mul, lemma_u64_shr_is_div};
use vstd::std_specs::cmp::PartialEqSpecImpl;
use crate::number::{append_i64, append_u64, int_decimal, nat_decimal};
use crate::text::str_eq;

verus! {

/// An argument passed to a translation template.
///
/// A floating-point input is carried as its IEEE 754 binary64 bit pattern
/// (`f64::to_bits`) together with its rendered text.
#[derive(Debug)]
pub enum Arg<'a> {
    /// Signed integers.
    Int(i64),
    /// Unsigned integers.
    Uint(u64),
    /// Floating point numbers: bit pattern and display text.
    Float { bits: u64, text: String },
    /// String values.
    String(&'a str),
}

/// The biased exponent field of a binary64 bit pattern.
pub open spec fn float_exponent(bits: u64) -> u64 {
    (bits >> 52u64) & 0x7ffu64
}

/// The fraction field of a binary64 bit pattern.
pub open spec fn float_fraction(bits: u64) -> u64 {
    bits & 0xf_ffff_ffff_ffffu64
}

/// Whether a binary64 bit pattern is a NaN.
pub open spec fn is_nan_bits(bits: u64) -> bool {
    float_exponent(bits) == 0x7ff && float_fraction(bits) != 0
}

/// Whether a binary64 bit pattern is a zero of either sign.
pub open spec fn is_zero_bits(bits: u64) -> bool {
    float_exponent(bits) == 0 && float_fraction(bits) == 0
}

/// Floating-point equality of two binary64 values: NaN equals nothing, the two
/// zeros are equal, and any other values are equal when their bits are.
pub open spec fn float_bits_eq(a: u64, b: u64) -> bool {
    if is_nan_bits(a) || is_nan_bits(b) {
        false
    } else if is_zero_bits(a) && is_zero_bits(b) {
        true
    } else {
        a == b
    }
}

/// `|x| as u64` of the binary64 value `x` with these bits: the absolute value
/// with the fractional part truncated, 0 for NaN, and `u64::MAX` for values of
/// at least 2^64 (infinity included).
///
/// A normal value is `(2^52 + fraction) * 2^(exponent - 1075)`; a subnormal
/// value is below 1.
pub open spec fn float_abs_trunc(bits: u64) -> nat {
    let e = float_exponent(bits);
    let f = float_fraction(bits);
    if e == 0x7ff {
        if f != 0 {
            0
        } else {
            u64::MAX as nat
        }
    } else if e < 1023 {
        0
    } else if e >= 1087 {
        u64::MAX as nat
    } else if e >= 1075 {
        (f as nat + pow2(52)) * pow2((e - 1075) as nat)
    } else {
        (f as nat + pow2(52)) / pow2((1075 - e) as nat)
    }
}

/// Whether two arguments are equal: the same variant and an equal value,
/// floats compared as floating-point numbers and strings by their characters.
pub open spec fn arg_eq(a: Arg, b: Arg) -> bool {
    match (a, b) {
        (Arg::Int(x), Arg::Int(y)) => x == y,
        (Arg::Uint(x), Arg::Uint(y)) => x == y,
        (Arg::Float { bits: x, .. }, Arg::Float { bits: y, .. }) => float_bits_eq(x, y),
        (Arg::String(x), Arg::String(y)) => x@ == y@,
        _ => false,
    }
}

/// Whether an argument is a number.
pub open spec fn spec_is_numeric(a: Arg) -> bool {
    !(a is String)
}

/// Whether an argument came from a floating-point input.
pub open spec fn spec_is_float(a: Arg) -> bool {
    a is Float
}

/// The absolute value of a numeric argument, fractional part truncated.
pub open spec fn spec_abs_trunc(a: Arg) -> nat {
    match a {
        Arg::Int(v) => if v < 0 { (-v) as nat } else { v as nat },
        Arg::Uint(v) => v as nat,
        Arg::Float { bits, .. } => float_abs_trunc(bits),
        Arg::String(_) => 0,
    }
}

/// The text an argument renders to.
pub open spec fn arg_text(a: Arg) -> Seq<char> {
    match a {
        Arg::Int(v) => int_decimal(v as int),
        Arg::Uint(v) => nat_decimal(v as nat),
        Arg::Float { text, .. } => text@,
        Arg::String(s) => s@,
    }
}

impl<'a> Arg<'a> {
    /// Checks if self is not an [`Arg::String`].
    pub fn is_numeric(&self) -> (b: bool)
        ensures
            b == spec_is_numeric(*self),
    {
        !matches!(self, Arg::String(..))
    }

    /// Returns the truncated absolute value of a numeric argument.
    pub fn abs_trunc(&self) -> (v: u64)
        requires
            spec_is_numeric(*self),
        ensures
            v == spec_abs_trunc(*self),
    {
        match self {
            Arg::Int(value) => {
                if *value < 0 {
                    if *value == i64::MIN {
                        9223372036854775808u64
                    } else {
                        (-*value) as u64
                    }
                } else {
                    *value as u64
                }
            },
            Arg::Uint(value) => *value,
            Arg::Float { bits, .. } => float_bits_abs_trunc(*bits),
            Arg::String(_) => 0,
        }
    }

    /// Checks if self is an [`Arg::Float`].
    pub fn is_float(&self) -> (b: bool)
        ensures
            b == spec_is_float(*self),
    {
        matches!(self, Arg::Float { .. })
    }

    /// Appends the rendered value to `out`.
    pub fn write_to(&self, out: &mut String)
        ensures
            final(out)@ == old(out)@ + arg_text(*self),
    {
        match self {
            Arg::Int(value) => {
                append_i64(out, *value);
            },
            Arg::Uint(value) => {
                append_u64(out, *value);
            },
            Arg::Float { text, .. } => {
                out.append(text.as_str());
            },
            Arg::String(value) => {
                out.append(value);
            },
        }
    }
}


/// `|x| as u64` of the binary64 value `x` with these bits.
fn float_bits_abs_trunc(bits: u64) -> (r: u64)
    ensures
        r == float_abs_trunc(bits),
{
    let e = (bits >> 52u64) & 0x7ffu64;
    let f = bits & 0xf_ffff_ffff_ffffu64;
    assert(f < 0x10_0000_0000_0000u64) by (bit_vector)
        requires
            f == bits & 0xf_ffff_ffff_ffffu64,
    ;
    assert(e <= 0x7ffu64) by (bit_vector)
        requires
            e == (bits >> 52u64) & 0x7ffu64,
    ;
    proof {
        lemma2_to64();
        lemma2_to64_rest();
    }
    if e == 0x7ff {
        if f != 0 {
            0
        } else {
            u64::MAX
        }
    } else if e < 1023 {
        0
    } else if e >= 1087 {
        u64::MAX
    } else if e >= 1075 {
        let x = f + 0x10_0000_0000_0000u64;
        let shift = e - 1075;
        proof {
            assert(pow2(shift as nat) <= pow2(11)) by {
                if shift < 11 {
                    lemma_pow2_strictly_increases(shift as nat, 11);
                }
            }
            assert(x * pow2(shift as nat) <= 0x1f_ffff_ffff_ffff * 2048) by (nonlinear_arith)
                requires
                    x <= 0x1f_ffff_ffff_ffff,
                    pow2(shift as nat) <= 2048,
            ;
            lemma_u64_shl_is_mul(x, shift);
        }
        x << shift
    } else {
        let x = f + 0x10_0000_0000_0000u64;
        let shift = 1075 - e;
        proof {
            lemma_u64_shr_is_div(x, shift);
        }
        x >> shift
    }
}

/// Floating-point equality of two binary64 bit patterns.
fn float_bits_equal(a: u64, b: u64) -> (r: bool)
    ensures
        r == float_bits_eq(a, b),
{
    let ea = (a >> 52u64) & 0x7ffu64;
    let fa = a & 0xf_ffff_ffff_ffffu64;
    let eb = (b >> 52u64) & 0x7ffu64;
    let fb = b & 0xf_ffff_ffff_ffffu64;
    if (ea == 0x7ff && fa != 0) || (eb == 0x7ff && fb != 0) {
        false
    } else if ea == 0 && fa == 0 && eb == 0 && fb == 0 {
        true
    } else {
        a == b
    }
}

impl<'a> PartialEq for Arg<'a> {
    fn eq(&self, other: &Self) -> (r: bool) {
        match (self, other) {
            (Arg::Int(x), Arg::Int(y)) => *x == *y,
            (Arg::Uint(x), Arg::Uint(y)) => *x == *y,
            (Arg::Float { bits: x, .. }, Arg::Float { bits: y, .. }) => float_bits_equal(*x, *y),
            (Arg::String(x), Arg::String(y)) => str_eq(x, y),
            _ => false,
        }
    }
}

impl<'a> PartialEqSpecImpl for Arg<'a> {
    open spec fn obeys_eq_spec() -> bool {
        true
    }

    open spec fn eq_spec(&self, other: &Self) -> bool {
        arg_eq(*self, *other)
    }
}

/// Types whose references can be converted to an [`Arg`].
///
/// Implemented for the integer types, [`String`] and `&str`; floating-point
/// values are handed over as [`Arg::Float`].
pub trait ToArg<'a>: Sized {
    /// Whether `a` is the [`Arg`] that this value converts to.
    spec fn converts_to(self, a: Arg<'a>) -> bool;

    /// Converts the referenced value to the corresponding [`Arg`] variant.
    fn to_arg(self) -> (a: Arg<'a>)
        ensures
            self.converts_to(a),
    ;
}

impl<'a, 'b> ToArg<'a> for &'a &'b str {
    open spec fn converts_to(self, a: Arg<'a>) -> bool {
        a == Arg::String(*self)
    }

    fn to_arg(self) -> (a: Arg<'a>) {
        Arg::String(*self)
    }
}

impl<'a> ToArg<'a> for &'a String {
    open spec fn converts_to(self, a: Arg<'a>) -> bool {
        a matches Arg::String(s) && s@ == self@
    }

    fn to_arg(self) -> (a: Arg<'a>) {
        Arg::String(self.as_str())
    }
}

impl<'a> ToArg<'a> for &'a i8 {
    open spec fn converts_to(self, a: Arg<'a>) -> bool {
        a == Arg::Int(*self as i64)
    }

    fn to_arg(self) -> (a: Arg<'a>) {
        Arg::Int(*self as i64)
    }
}

impl<'a> ToArg<'a> for &'a i16 {
    open spec fn converts_to(self, a: Arg<'a>) -> bool {
        a == Arg::Int(*self as i64)
    }

    fn to_arg(self) -> (a: Arg<'a>) {
        Arg::Int(*self as i64)
    }
}

impl<'a> ToArg<'a> for &'a i32 {
    open spec fn converts_to(self, a: Arg<'a>) -> bool {
        a == Arg::Int(*self as i64)
    }

    fn to_arg(self) -> (a: Arg<'a>) {
        Arg::Int(*self as i64)
    }
}

impl<'a> ToArg<'a> for &'a i64 {
    open spec fn converts_to(self, a: Arg<'a>) -> bool {
        a == Arg::Int(*self)
    }

    fn to_arg(self) -> (a: Arg<'a>) {
        Arg::Int(*self)
    }
}

impl<'a> ToArg<'a> for &'a isize {
    open spec fn converts_to(self, a: Arg<'a>) -> bool {
        a == Arg::Int(*self as i64)
    }

    fn to_arg(self) -> (a: Arg<'a>) {
        Arg::Int(*self as i64)
    }
}

impl<'a> ToArg<'a> for &'a u8 {
    open spec fn converts_to(self, a: Arg<'a>) -> bool {
        a == Arg::Uint(*self as u64)
    }

    fn to_arg(self) -> (a: Arg<'a>) {
        Arg::Uint(*self as u64)
    }
}

impl<'a> ToArg<'a> for &'a u16 {
    open spec fn converts_to(self, a: Arg<'a>) -> bool {
        a == Arg::Uint(*self as u64)
    }

    fn to_arg(self) -> (a: Arg<'a>) {
        Arg::Uint(*self as u64)
    }
}

impl<'a> ToArg<'a> for &'a u32 {
    open spec fn converts_to(self, a: Arg<'a>) -> bool {
        a == Arg::Uint(*self as u64)
    }

    fn to_arg(self) -> (a: Arg<'a>) {
        Arg::Uint(*self as u64)
    }
}

impl<'a> ToArg<'a> for &'a u64 {
    open spec fn converts_to(self, a: Arg<'a>) -> bool {
        a == Arg::Uint(*self)
    }

    fn to_arg(self) -> (a: Arg<'a>) {
        Arg::Uint(*self)
    }
}

impl<'a> ToArg<'a> for &'a usize {
    open spec fn converts_to(self, a: Arg<'a>) -> bool {
        a == Arg::Uint(*self as u64)
    }

    fn to_arg(self) -> (a: Arg<'a>) {
        Arg::Uint(*self as u64)
    }
}

/// Converts a compatible input to an [`Arg`].
pub fn __arg<'a, T: ?Sized>(value: &'a T) -> (a: Arg<'a>) where &'a T: ToArg<'a>
    ensures
        value.converts_to(a),
{
    value.to_arg()
}

} // verus!
