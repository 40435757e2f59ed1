//! The host's floating-point unit, seen through bit patterns.
//!
//! Floating-point values are carried as their IEEE-754 bits. Every operation
//! that rounds is a call of a function the caller supplies; negation, absolute
//! value and the tests for NaN and infinity are bit operations and are done here.
use vstd::prelude::*;

verus! {

/// An operation of the floating-point unit. The operands and the result are bit
/// patterns, a 32-bit one in the low half of its word.
#[derive(Clone, Copy, Debug, PartialEq, Eq, Structural)]
pub enum FloatOp {
    /// A 32-bit value to 64 bits.
    Widen,
    /// A 64-bit value rounded to 32 bits.
    Narrow,
    /// A 128-bit integer (low word, high word) rounded to 64 bits.
    FromInt64,
    /// A 128-bit integer (low word, high word) rounded to 32 bits.
    FromInt32,
    /// The low word of a 64-bit value truncated, with saturation, to a 128-bit integer.
    ToIntLow,
    /// The high word of the same integer.
    ToIntHigh,
    Add32,
    Sub32,
    Mul32,
    Fma32,
    Clamp32,
    Add64,
    Sub64,
    Mul64,
    Div64,
    Rem64,
    Min64,
    Max64,
    Fma64,
    Clamp64,
    Powf64,
    Sqrt64,
    Recip64,
    Floor64,
    Ceil64,
    /// Round to the nearest integer, ties to even.
    Round64,
    Trunc64,
    Exp64,
    Log64,
    Sin64,
    Cos64,
    Tanh64,
    /// Order of two 64-bit values: 0 less, 1 equal, 2 greater, anything else unordered.
    Order64,
}

/// What a floating-point unit computes, as a function on bit patterns.
pub type FloatModel = spec_fn(FloatOp, u64, u64, u64) -> u64;

/// The function that the unit `f` computes.
pub open spec fn model_of<F: Fn(FloatOp, u64, u64, u64) -> u64>(f: F) -> FloatModel {
    |op: FloatOp, a: u64, b: u64, c: u64| choose|r: u64| call_ensures(f, (op, a, b, c), r)
}

/// `f` accepts every operand and always gives one result for the same operands.
pub open spec fn is_unit<F: Fn(FloatOp, u64, u64, u64) -> u64>(f: F) -> bool {
    &&& forall|op: FloatOp, a: u64, b: u64, c: u64| call_requires(f, (op, a, b, c))
    &&& forall|op: FloatOp, a: u64, b: u64, c: u64, r: u64, s: u64|
        #![trigger call_ensures(f, (op, a, b, c), r), call_ensures(f, (op, a, b, c), s)]
        call_ensures(f, (op, a, b, c), r) && call_ensures(f, (op, a, b, c), s) ==> r == s
}

pub fn apply<F: Fn(FloatOp, u64, u64, u64) -> u64>(
    f: &F,
    op: FloatOp,
    a: u64,
    b: u64,
    c: u64,
) -> (r: u64)
    requires
        is_unit(*f),
    ensures
        r == model_of(*f)(op, a, b, c),
{
    let r: u64 = f(op, a, b, c);
    r
}

/// The unit of a machine without floating point: every result is zero.
pub fn no_floats(_op: FloatOp, _a: u64, _b: u64, _c: u64) -> (r: u64)
    ensures
        r == 0,
{
    0
}

/// The sign bit of a 32-bit value.
pub const SIGN32: u32 = 0x8000_0000;

/// The exponent bits of a 32-bit value: the bits of infinity.
pub const INF32: u32 = 0x7f80_0000;

/// The sign bit of a 64-bit value.
pub const SIGN64: u64 = 0x8000_0000_0000_0000;

/// The exponent bits of a 64-bit value: the bits of infinity.
pub const INF64: u64 = 0x7ff0_0000_0000_0000;

pub open spec fn negated32(x: u32) -> u32 {
    if x < SIGN32 {
        (x + SIGN32) as u32
    } else {
        (x - SIGN32) as u32
    }
}

pub open spec fn negated64(x: u64) -> u64 {
    if x < SIGN64 {
        (x + SIGN64) as u64
    } else {
        (x - SIGN64) as u64
    }
}

/// The value without its sign bit.
pub open spec fn magnitude32(x: u32) -> u32 {
    if x < SIGN32 {
        x
    } else {
        (x - SIGN32) as u32
    }
}

pub open spec fn magnitude64(x: u64) -> u64 {
    if x < SIGN64 {
        x
    } else {
        (x - SIGN64) as u64
    }
}

pub fn neg32(x: u32) -> (r: u32)
    ensures
        r == negated32(x),
{
    if x < SIGN32 {
        x + SIGN32
    } else {
        x - SIGN32
    }
}

pub fn neg64(x: u64) -> (r: u64)
    ensures
        r == negated64(x),
{
    if x < SIGN64 {
        x + SIGN64
    } else {
        x - SIGN64
    }
}

pub fn abs32(x: u32) -> (r: u32)
    ensures
        r == magnitude32(x),
{
    if x < SIGN32 {
        x
    } else {
        x - SIGN32
    }
}

pub fn abs64(x: u64) -> (r: u64)
    ensures
        r == magnitude64(x),
{
    if x < SIGN64 {
        x
    } else {
        x - SIGN64
    }
}

/// Negation undoes itself and keeps the magnitude.
pub proof fn law_negation(x: u32, y: u64)
    ensures
        negated32(negated32(x)) == x,
        magnitude32(negated32(x)) == magnitude32(x),
        negated64(negated64(y)) == y,
        magnitude64(negated64(y)) == magnitude64(y),
{
}

} // verus!
