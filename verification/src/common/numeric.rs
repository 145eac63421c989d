//! Arbitrary-precision integers for Peps numbers.
//!
//! Values are held as little-endian two's-complement bytes, the plain form
//! that `num_bigint` reads and writes; every operation is carried out by
//! `num_bigint` and the contracts below state what it computes.

use vstd::prelude::*;

use num_bigint::BigInt;
use num_traits::ToPrimitive;

use crate::common::text::{decimal, signed_decimal};

verus! {

/// The unsigned value of little-endian base-256 digits.
pub open spec fn unsigned_le(bytes: Seq<u8>) -> nat
    decreases bytes.len(),
{
    if bytes.len() == 0 {
        0
    } else {
        bytes[0] as nat + 256 * unsigned_le(bytes.drop_first())
    }
}

/// `256` raised to `n`.
pub open spec fn pow256(n: nat) -> nat
    decreases n,
{
    if n == 0 { 1 } else { 256 * pow256((n - 1) as nat) }
}

/// The value of little-endian two's-complement bytes: the unsigned value,
/// less `256^len` when the top bit of the last byte is set. No bytes means zero.
pub open spec fn signed_le(bytes: Seq<u8>) -> int {
    if bytes.len() == 0 {
        0
    } else if bytes.last() > 0x7f {
        unsigned_le(bytes) - pow256(bytes.len())
    } else {
        unsigned_le(bytes) as int
    }
}

/// Integer division that rounds toward zero, as Rust's integer `/` does.
pub open spec fn trunc_div(a: int, b: int) -> int {
    let q = (if a < 0 { -a } else { a }) / (if b < 0 { -b } else { b });
    if (a < 0) == (b < 0) { q } else { -q }
}

/// Whether `c` is an ASCII decimal digit.
pub open spec fn is_digit(c: char) -> bool {
    '0' <= c && c <= '9'
}

/// The numeric value of an ASCII decimal digit.
pub open spec fn digit_value(c: char) -> nat {
    (c as nat - '0' as nat) as nat
}

/// The value of a run of decimal digits in which `_` separators are skipped.
pub open spec fn digits_value(s: Seq<char>) -> nat
    decreases s.len(),
{
    if s.len() == 0 {
        0
    } else if s.last() == '_' {
        digits_value(s.drop_last())
    } else {
        digits_value(s.drop_last()) * 10 + digit_value(s.last())
    }
}

/// Whether `s` is an unsigned decimal body: non-empty, not starting with `_`,
/// and made of digits and `_` separators only.
pub open spec fn valid_digits(s: Seq<char>) -> bool {
    &&& s.len() > 0
    &&& s[0] != '_'
    &&& forall|i: int| 0 <= i < s.len() ==> is_digit(#[trigger] s[i]) || s[i] == '_'
}

/// Decimal text accepted for an unsigned magnitude: an optional single `+`
/// followed by a valid digit body.
pub open spec fn parse_unsigned(s: Seq<char>) -> Option<nat> {
    let body = if s.len() > 0 && s[0] == '+' && !(s.len() > 1 && s[1] == '+') {
        s.drop_first()
    } else {
        s
    };
    if valid_digits(body) { Some(digits_value(body)) } else { None }
}

/// The integer that decimal text denotes: an optional `-` sign (not followed by
/// `+`), an optional `+`, then digits with optional `_` separators.
pub open spec fn parse_decimal(s: Seq<char>) -> Option<int> {
    if s.len() > 0 && s[0] == '-' && !(s.len() > 1 && s[1] == '+') {
        match parse_unsigned(s.drop_first()) {
            Some(m) => Some(-(m as int)),
            None => None,
        }
    } else {
        match parse_unsigned(s) {
            Some(m) => Some(m as int),
            None => None,
        }
    }
}

/// An arbitrary-precision integer.
#[derive(Debug, Clone, PartialEq, Eq)]
pub struct Int {
    bytes: Vec<u8>,
}

impl View for Int {
    type V = int;

    closed spec fn view(&self) -> int {
        signed_le(self.bytes@)
    }
}

impl Int {
    /// The integer whose little-endian two's-complement bytes are `bytes`.
    pub fn from_le_bytes(bytes: Vec<u8>) -> (r: Int)
        ensures
            r@ == signed_le(bytes@),
    {
        Int { bytes }
    }

    /// The little-endian two's-complement bytes of this integer.
    pub fn le_bytes(&self) -> (bytes: &Vec<u8>)
        ensures
            signed_le(bytes@) == self@,
    {
        &self.bytes
    }

    /// A copy of this integer.
    pub fn duplicate(&self) -> (r: Int)
        ensures
            r@ == self@,
    {
        Int { bytes: self.bytes.clone() }
    }

    /// Converts a machine integer (`num_bigint`'s `From<i64>`).
    ///
    /// Trusted: claims that the result has the same value.
    #[verifier::external_body]
    fn bigint_from_i64(v: i64) -> (r: Int)
        ensures
            r@ == v as int,
    {
        Int { bytes: (BigInt::from(v)).to_signed_bytes_le() }
    }

    /// The integer `v`.
    pub fn from_i64(v: i64) -> (r: Int)
        ensures
            r@ == v as int,
    {
        Int::bigint_from_i64(v)
    }

    /// Converts an unsigned machine integer (`num_bigint`'s `From<usize>`).
    ///
    /// Trusted: claims that the result has the same value.
    #[verifier::external_body]
    pub(crate) fn from_usize(v: usize) -> (r: Int)
        ensures
            r@ == v as int,
    {
        Int { bytes: (BigInt::from(v)).to_signed_bytes_le() }
    }

    /// Converts an unsigned 64-bit integer (`num_bigint`'s `From<u64>`).
    ///
    /// Trusted: claims that the result has the same value.
    #[verifier::external_body]
    pub(crate) fn from_u64(v: u64) -> (r: Int)
        ensures
            r@ == v as int,
    {
        Int { bytes: (BigInt::from(v)).to_signed_bytes_le() }
    }

    /// Sum (`num_bigint`'s `Add`). Trusted: claims the exact sum.
    #[verifier::external_body]
    pub(crate) fn add(&self, other: &Int) -> (r: Int)
        ensures
            r@ == self@ + other@,
    {
        Int { bytes: (BigInt::from_signed_bytes_le(&self.bytes) + BigInt::from_signed_bytes_le(&other.bytes)).to_signed_bytes_le() }
    }

    /// Difference (`num_bigint`'s `Sub`). Trusted: claims the exact difference.
    #[verifier::external_body]
    pub(crate) fn sub(&self, other: &Int) -> (r: Int)
        ensures
            r@ == self@ - other@,
    {
        Int { bytes: (BigInt::from_signed_bytes_le(&self.bytes) - BigInt::from_signed_bytes_le(&other.bytes)).to_signed_bytes_le() }
    }

    /// Product (`num_bigint`'s `Mul`). Trusted: claims the exact product.
    #[verifier::external_body]
    pub(crate) fn mul(&self, other: &Int) -> (r: Int)
        ensures
            r@ == self@ * other@,
    {
        Int { bytes: (BigInt::from_signed_bytes_le(&self.bytes) * BigInt::from_signed_bytes_le(&other.bytes)).to_signed_bytes_le() }
    }

    /// Quotient rounded toward zero (`num_bigint`'s `Div`, which panics on a zero divisor).
    /// Trusted: claims the truncated quotient.
    #[verifier::external_body]
    pub(crate) fn div(&self, other: &Int) -> (r: Int)
        requires
            other@ != 0,
        ensures
            r@ == trunc_div(self@, other@),
    {
        Int { bytes: (BigInt::from_signed_bytes_le(&self.bytes) / BigInt::from_signed_bytes_le(&other.bytes)).to_signed_bytes_le() }
    }

    /// Numeric equality (`num_bigint`'s `PartialEq`). Trusted: claims value equality.
    #[verifier::external_body]
    pub(crate) fn equals(&self, other: &Int) -> (r: bool)
        ensures
            r == (self@ == other@),
    {
        BigInt::from_signed_bytes_le(&self.bytes) == BigInt::from_signed_bytes_le(&other.bytes)
    }

    /// Numeric less-than (`num_bigint`'s `PartialOrd`). Trusted: claims the order of values.
    #[verifier::external_body]
    pub(crate) fn less_than(&self, other: &Int) -> (r: bool)
        ensures
            r == (self@ < other@),
    {
        BigInt::from_signed_bytes_le(&self.bytes) < BigInt::from_signed_bytes_le(&other.bytes)
    }

    /// Whether the value is zero.
    pub fn is_zero(&self) -> (r: bool)
        ensures
            r == (self@ == 0),
    {
        self.equals(&Int::from_usize(0))
    }

    /// The value as an index, when it lies in `0..=usize::MAX`
    /// (`num_traits::ToPrimitive::to_usize`). Trusted: claims exactly that.
    #[verifier::external_body]
    pub(crate) fn to_usize(&self) -> (r: Option<usize>)
        ensures
            match r {
                Some(u) => u as int == self@,
                None => self@ < 0 || self@ > usize::MAX,
            },
    {
        BigInt::from_signed_bytes_le(&self.bytes).to_usize()
    }

    /// Decimal text of the value (`num_bigint`'s `Display`). Trusted: claims
    /// the digits without leading zeros, preceded by `-` when negative.
    #[verifier::external_body]
    pub(crate) fn to_decimal(&self) -> (r: String)
        ensures
            r@ == signed_decimal(self@),
    {
        BigInt::from_signed_bytes_le(&self.bytes).to_string()
    }

    /// Parses decimal text (`num_bigint`'s `FromStr`). Trusted: claims success
    /// exactly on the syntax `parse_decimal` accepts, with that value.
    #[verifier::external_body]
    fn bigint_parse(text: &str) -> (r: Option<Int>)
        ensures
            match r {
                Some(v) => parse_decimal(text@) == Some(v@),
                None => parse_decimal(text@).is_none(),
            },
    {
        match text.parse::<BigInt>() {
            Ok(v) => Some(Int { bytes: v.to_signed_bytes_le() }),
            Err(_) => None,
        }
    }

    /// The integer written in decimal as `text`: an optional sign and at least
    /// one digit, nothing else.
    pub fn parse_decimal(text: &str) -> (r: Option<Int>)
        ensures
            match r {
                Some(v) => parse_decimal(text@) == Some(v@),
                None => parse_decimal(text@).is_none(),
            },
    {
        Int::bigint_parse(text)
    }
}

} // verus!
