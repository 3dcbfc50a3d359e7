//! Decimal text of integers, produced by `itoa`.

use vstd::prelude::*;

verus! {

/// The ASCII digit for `d` (`0 <= d < 10`).
pub open spec fn digit_char(d: nat) -> char {
    (d + 48) as char
}

/// The shortest decimal representation of a natural number.
pub open spec fn nat_decimal(n: nat) -> Seq<char>
    decreases n,
{
    if n < 10 {
        seq![digit_char(n)]
    } else {
        nat_decimal(n / 10).push(digit_char(n % 10))
    }
}

/// The decimal representation of an integer, with a leading `-` when negative.
pub open spec fn int_decimal(v: int) -> Seq<char> {
    if v < 0 {
        seq!['-'] + nat_decimal((-v) as nat)
    } else {
        nat_decimal(v as nat)
    }
}

/// Appends the decimal text of a signed integer.
///
/// Calls `itoa::Buffer::format` on an `i64` and appends the text it gives; the
/// contract claims that it is the value in base ten, with a `-` before negative
/// values and no leading zeros, which is what `itoa` documents (the same text
/// as `Display` for integers).
#[verifier::external_body]
pub(crate) fn append_i64(out: &mut String, v: i64)
    ensures
        final(out)@ == old(out)@ + int_decimal(v as int),
{
    let mut buf = itoa::Buffer::new();
    out.push_str(buf.format(v));
}

/// Appends the decimal text of an unsigned integer.
///
/// Calls `itoa::Buffer::format` on a `u64` and appends the text it gives; the
/// contract claims that it is the value in base ten without leading zeros.
#[verifier::external_body]
pub(crate) fn append_u64(out: &mut String, v: u64)
    ensures
        final(out)@ == old(out)@ + nat_decimal(v as nat),
{
    let mut buf = itoa::Buffer::new();
    out.push_str(buf.format(v));
}

} // verus!
