//! Floats as the machine sees them.
//!
//! Peps floats are 64-bit IEEE 754 values. The machine keeps them as their
//! bit patterns and decides everything that depends only on those bits itself:
//! whether a value is finite or zero, how two values order, and whether a
//! value is an exact integer. Arithmetic, reading decimal text and printing are
//! asked of the caller, which answers a [`FloatRequest`] with a [`FloatReply`]
//! (the command-line runner and the IDE answer with the host's `f64`).

use vstd::prelude::*;

use crate::common::numeric::Int;

verus! {

/// A floating-point operation the caller performs.
#[derive(Debug, Clone, Copy, PartialEq, Eq)]
pub enum FloatOperation {
    /// IEEE 754 addition.
    Add,
    /// IEEE 754 subtraction.
    Sub,
    /// IEEE 754 multiplication.
    Mul,
    /// IEEE 754 division.
    Div,
}

/// What the machine asks of the caller's float arithmetic.
#[derive(Debug, Clone, PartialEq, Eq)]
pub enum FloatRequest {
    /// Read decimal text with Rust's `str::parse::<f64>` syntax; answered with
    /// [`FloatReply::Number`], or [`FloatReply::Invalid`] when the text is not a float.
    Parse(String),
    /// Apply an operation to two floats given by their bits; answered with
    /// [`FloatReply::Number`].
    Arithmetic(FloatOperation, u64, u64),
    /// The text `f64`'s `Display` prints for a float; answered with [`FloatReply::Text`].
    Format(u64),
}

/// The caller's answer to a [`FloatRequest`].
#[derive(Debug, Clone, PartialEq, Eq)]
pub enum FloatReply {
    /// A float, by its bits.
    Number(u64),
    /// The text to parse is not a float.
    Invalid,
    /// Formatted text.
    Text(String),
}

/// The answers the caller's float arithmetic `float_ops` may give.
pub open spec fn hosts<F: Fn(FloatRequest) -> FloatReply>(float_ops: &F) -> spec_fn(FloatRequest, FloatReply) -> bool {
    |q: FloatRequest, a: FloatReply| float_ops.ensures((q,), a)
}

/// `text` is what printing the float `bits` gives when the caller answers as
/// `host` allows: the text it answers with, or `?` for any other answer.
pub open spec fn printed_float(host: spec_fn(FloatRequest, FloatReply) -> bool, bits: u64, text: Seq<char>) -> bool {
    exists|reply: FloatReply| #[trigger] host(FloatRequest::Format(bits), reply) && text == match reply {
        FloatReply::Text(t) => t@,
        _ => "?"@,
    }
}

/// `2` raised to `n`.
pub open spec fn pow2(n: nat) -> nat
    decreases n,
{
    if n == 0 { 1 } else { 2 * pow2((n - 1) as nat) }
}

/// The biased exponent field of a float's bits.
pub open spec fn exponent_field(bits: u64) -> nat {
    ((bits as nat / 0x10_0000_0000_0000) % 0x800) as nat
}

/// The fraction field of a float's bits.
pub open spec fn fraction_field(bits: u64) -> nat {
    (bits as nat % 0x10_0000_0000_0000) as nat
}

/// Whether the sign bit is set.
pub open spec fn sign_set(bits: u64) -> bool {
    bits >= 0x8000_0000_0000_0000
}

/// Whether the bits encode a finite float (neither infinite nor NaN).
pub open spec fn float_finite(bits: u64) -> bool {
    exponent_field(bits) != 0x7ff
}

/// A key that orders finite floats as their values order: the magnitude bits,
/// negated for negative values, so that both zeros share the key `0`.
pub open spec fn order_key(bits: u64) -> int {
    let magnitude = (bits as nat % 0x8000_0000_0000_0000) as int;
    if sign_set(bits) { -magnitude } else { magnitude }
}

/// The integer a finite float equals, when it is one.
pub open spec fn float_integer(bits: u64) -> Option<int> {
    let e = exponent_field(bits);
    let f = fraction_field(bits);
    let sign: int = if sign_set(bits) { -1 } else { 1 };
    if e == 0x7ff {
        None
    } else if e == 0 {
        if f == 0 { Some(0) } else { None }
    } else if e >= 1075 {
        Some(sign * ((f + pow2(52)) * pow2((e - 1075) as nat)))
    } else if ((f + pow2(52)) as nat) % pow2((1075 - e) as nat) == 0 {
        Some(sign * ((f + pow2(52)) / pow2((1075 - e) as nat)) as int)
    } else {
        None
    }
}

proof fn lemma_pow2_52()
    ensures
        pow2(52) == 0x10_0000_0000_0000,
{
    reveal_with_fuel(pow2, 53);
}

proof fn lemma_pow2_positive(n: nat)
    ensures
        pow2(n) >= 1,
    decreases n,
{
    if n > 0 {
        lemma_pow2_positive((n - 1) as nat);
    }
}

proof fn lemma_pow2_monotone(a: nat, b: nat)
    requires
        a <= b,
    ensures
        pow2(a) <= pow2(b),
    decreases b,
{
    if a < b {
        lemma_pow2_monotone(a, (b - 1) as nat);
        lemma_pow2_positive((b - 1) as nat);
    }
}

/// Whether the bits encode a finite float.
pub fn is_finite(bits: u64) -> (r: bool)
    ensures
        r == float_finite(bits),
{
    (bits / 0x10_0000_0000_0000) % 0x800 != 0x7ff
}

/// Whether the float is zero (of either sign).
pub fn is_zero(bits: u64) -> (r: bool)
    ensures
        r == (order_key(bits) == 0),
{
    bits % 0x8000_0000_0000_0000 == 0
}

/// The order key of a float, as a machine integer.
fn key_of(bits: u64) -> (k: i64)
    ensures
        k as int == order_key(bits),
{
    let magnitude = (bits % 0x8000_0000_0000_0000) as i64;
    if bits >= 0x8000_0000_0000_0000 {
        -magnitude
    } else {
        magnitude
    }
}

/// Whether `a` is less than `b`, for finite floats.
pub fn float_less(a: u64, b: u64) -> (r: bool)
    ensures
        r == (order_key(a) < order_key(b)),
{
    key_of(a) < key_of(b)
}

/// Whether `a` equals `b`, for finite floats (both zeros are equal).
pub fn float_equal(a: u64, b: u64) -> (r: bool)
    ensures
        r == (order_key(a) == order_key(b)),
{
    key_of(a) == key_of(b)
}

/// The float with the opposite sign.
pub fn negate(bits: u64) -> (r: u64)
    ensures
        order_key(r) == -order_key(bits),
        float_finite(r) == float_finite(bits),
{
    if bits >= 0x8000_0000_0000_0000 {
        bits - 0x8000_0000_0000_0000
    } else {
        bits + 0x8000_0000_0000_0000
    }
}

/// The integer a float equals, when it is a finite integer.
pub fn integer_value(bits: u64) -> (r: Option<Int>)
    ensures
        match r {
            Some(v) => float_integer(bits) == Some(v@),
            None => float_integer(bits) is None,
        },
{
    let e: u64 = (bits / 0x10_0000_0000_0000) % 0x800;
    let f: u64 = bits % 0x10_0000_0000_0000;
    let negative = bits >= 0x8000_0000_0000_0000;
    proof { lemma_pow2_52(); }
    if e == 0x7ff {
        return None;
    }
    if e == 0 {
        if f == 0 {
            return Some(Int::from_usize(0));
        }
        return None;
    }
    let full: u64 = f + 0x10_0000_0000_0000;
    let magnitude = if e >= 1075 {
        let mut value = Int::from_u64(full);
        let mut i: u64 = 0;
        while i < e - 1075
            invariant
                e >= 1075,
                i <= e - 1075,
                pow2(52) == 0x10_0000_0000_0000,
                value@ == full as int * pow2(i as nat),
            decreases e - 1075 - i,
        {
            value = value.add(&value);
            proof {
                assert(pow2((i + 1) as nat) == 2 * pow2(i as nat));
                assert(full as int * pow2((i + 1) as nat) == full as int * pow2(i as nat) + full as int * pow2(i as nat))
                    by (nonlinear_arith)
                    requires pow2((i + 1) as nat) == 2 * pow2(i as nat);
            }
            i = i + 1;
        }
        value
    } else {
        let k: u64 = 1075 - e;
        if k > 52 {
            proof {
                lemma_pow2_monotone(53, k as nat);
                reveal_with_fuel(pow2, 2);
                assert(pow2(53) == 2 * pow2(52));
                assert((full as nat) < pow2(k as nat));
                assert((full as nat) % pow2(k as nat) == full as nat) by (nonlinear_arith)
                    requires (full as nat) < pow2(k as nat);
            }
            return None;
        }
        let mut d: u64 = 1;
        let mut i: u64 = 0;
        while i < k
            invariant
                k <= 52,
                i <= k,
                pow2(52) == 0x10_0000_0000_0000,
                d as nat == pow2(i as nat),
                d <= 0x10_0000_0000_0000,
            decreases k - i,
        {
            proof {
                lemma_pow2_monotone((i + 1) as nat, 52);
                assert(pow2((i + 1) as nat) == 2 * pow2(i as nat));
            }
            d = d * 2;
            i = i + 1;
        }
        proof { lemma_pow2_positive(k as nat); }
        if full % d != 0 {
            return None;
        }
        let quotient = Int::from_u64(full / d);
        assert(quotient@ == ((full as nat) / pow2(k as nat)) as int);
        quotient
    };
    proof {
        assert(e as nat == exponent_field(bits));
        assert(f as nat == fraction_field(bits));
        assert(full as nat == fraction_field(bits) + pow2(52));
        if e >= 1075 {
            assert(magnitude@ == (fraction_field(bits) + pow2(52)) * pow2((exponent_field(bits) - 1075) as nat));
        } else {
            assert(magnitude@ == ((fraction_field(bits) + pow2(52)) / pow2((1075 - exponent_field(bits)) as nat)) as int);
        }
        let m = magnitude@;
        if negative {
            assert(-1 * m == -m) by (nonlinear_arith);
        } else {
            assert(1 * m == m) by (nonlinear_arith);
        }
        assert(float_integer(bits) == Some(if negative { -(magnitude@) } else { magnitude@ }));
    }
    if negative {
        Some(Int::from_usize(0).sub(&magnitude))
    } else {
        Some(magnitude)
    }
}

} // verus!
